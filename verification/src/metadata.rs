//! Track metadata: what a tag read yields, lyric cleanup and time labels.

use vstd::prelude::*;

use vstd::string::StringExecFns;

use lofty::file::{AudioFile, FileType, TaggedFileExt};
use lofty::probe::Probe;
use lofty::tag::{Accessor, ItemKey};

use crate::text::{char_is_ws, chars_of, is_ws, push_char, string_of, trim, trim_start};

verus! {

// ── Decimal and clock labels ────────────────────────────────────────────────

/// The ASCII digit for `d` (`d < 10`).
pub open spec fn digit_char(d: nat) -> char {
    (48 + d) as char
}

/// Decimal notation of `n`, without leading zeros.
pub open spec fn decimal(n: nat) -> Seq<char>
    decreases n,
{
    if n < 10 {
        seq![digit_char(n)]
    } else {
        decimal(n / 10).push(digit_char(n % 10))
    }
}

/// `n` in at least two digits, zero-padded (the `{:02}` format).
pub open spec fn pad2(n: nat) -> Seq<char> {
    if n < 10 {
        seq!['0', digit_char(n)]
    } else {
        decimal(n)
    }
}

/// `m:ss` for a number of whole seconds.
pub open spec fn clock_text(secs: nat) -> Seq<char> {
    decimal(secs / 60) + seq![':'] + pad2(secs % 60)
}

/// `s` is made of ASCII digits only.
pub open spec fn all_digits(s: Seq<char>) -> bool {
    forall|i: int| 0 <= i < s.len() ==> '0' <= #[trigger] s[i] && s[i] <= '9'
}

/// The number that a string of ASCII digits denotes.
pub open spec fn digits_value(s: Seq<char>) -> nat
    decreases s.len(),
{
    if s.len() == 0 {
        0
    } else {
        digits_value(s.drop_last()) * 10 + ((s.last() as u32) - 48) as nat
    }
}

proof fn lemma_digit_char(d: nat)
    requires
        d < 10,
    ensures
        (digit_char(d) as u32) == 48 + d,
        '0' <= digit_char(d) <= '9',
{
}

/// `decimal(n)` is the usual notation of `n`: ASCII digits, no leading
/// zero, denoting `n`.
pub proof fn lemma_decimal(n: nat)
    ensures
        decimal(n).len() > 0,
        all_digits(decimal(n)),
        digits_value(decimal(n)) == n,
        decimal(n).len() > 1 ==> decimal(n)[0] != '0',
    decreases n,
{
    lemma_digit_char(n % 10);
    if n >= 10 {
        lemma_decimal(n / 10);
        lemma_digit_char(n / 10 % 10);
        let p = decimal(n / 10);
        assert(decimal(n).drop_last() =~= p);
        assert(decimal(n).last() == digit_char(n % 10));
        assert(decimal(n)[0] == p[0]);
        if n / 10 < 10 {
            lemma_digit_char(n / 10);
            assert(p == seq![digit_char(n / 10)]);
            assert(('0' as u32) == 48);
            assert((p[0] as u32) != ('0' as u32));
        } else {
            lemma_decimal((n / 10) / 10);
            assert(p.len() > 1);
        }
        assert(digits_value(decimal(n)) == digits_value(p) * 10 + n % 10);
        assert((n / 10) * 10 + n % 10 == n);
    } else {
        assert(decimal(n).drop_last() =~= Seq::<char>::empty());
        assert(decimal(n).last() == digit_char(n));
        assert(digits_value(Seq::<char>::empty()) == 0);
        assert(digits_value(decimal(n)) == ((digit_char(n) as u32) - 48) as nat);
    }
}

/// `pad2(n)` is `n` in exactly two digits for `n < 100`.
pub proof fn lemma_pad2(n: nat)
    requires
        n < 100,
    ensures
        pad2(n).len() == 2,
        all_digits(pad2(n)),
        digits_value(pad2(n)) == n,
{
    lemma_digit_char(n % 10);
    if n >= 10 {
        lemma_decimal(n);
        lemma_decimal(n / 10);
        assert(decimal(n / 10) == seq![digit_char(n / 10)]);
    } else {
        assert(pad2(n).drop_last() =~= seq!['0']);
        assert(seq!['0'].drop_last() =~= Seq::<char>::empty());
        assert(pad2(n).last() == digit_char(n));
        assert(('0' as u32) == 48);
        assert(digits_value(Seq::<char>::empty()) == 0);
        assert(digits_value(seq!['0']) == 0);
        assert(digits_value(pad2(n)) == digits_value(seq!['0']) * 10 + ((digit_char(n) as u32) - 48) as nat);
    }
}

/// The `m:ss` label of `secs` seconds: the whole minutes in digits, a
/// colon, then the seconds past the minute in two digits.
pub proof fn lemma_clock_text(secs: nat)
    ensures
        ({
            let t = clock_text(secs);
            let k = t.len() - 3;
            &&& t.len() >= 4
            &&& t[k] == ':'
            &&& all_digits(t.take(k))
            &&& digits_value(t.take(k)) == secs / 60
            &&& all_digits(t.skip(k + 1))
            &&& t.skip(k + 1).len() == 2
            &&& digits_value(t.skip(k + 1)) == secs % 60
        }),
{
    lemma_decimal(secs / 60);
    lemma_pad2(secs % 60);
    let t = clock_text(secs);
    let d = decimal(secs / 60);
    let k = t.len() - 3;
    assert(t.take(k) =~= d);
    assert(t.skip(k + 1) =~= pad2(secs % 60));
}

fn digit(d: u128) -> (c: char)
    requires
        d < 10,
    ensures
        c == digit_char(d as nat),
{
    let b: u8 = 48u8 + (d as u8);
    b as char
}

/// Appends the decimal notation of `n`.
pub fn push_decimal(s: &mut String, n: u128)
    ensures
        final(s)@ == old(s)@ + decimal(n as nat),
    decreases n,
{
    if n >= 10 {
        push_decimal(s, n / 10);
    }
    push_char(s, digit(n % 10));
    assert(final(s)@ =~= old(s)@ + decimal(n as nat));
}

fn push_pad2(s: &mut String, n: u128)
    ensures
        final(s)@ == old(s)@ + pad2(n as nat),
{
    if n < 10 {
        push_char(s, '0');
        push_char(s, digit(n));
        assert(final(s)@ =~= old(s)@ + pad2(n as nat));
    } else {
        push_decimal(s, n);
    }
}

fn push_clock(s: &mut String, secs: u64)
    ensures
        final(s)@ == old(s)@ + clock_text(secs as nat),
{
    push_decimal(s, (secs / 60) as u128);
    push_char(s, ':');
    push_pad2(s, (secs % 60) as u128);
    assert(final(s)@ =~= old(s)@ + clock_text(secs as nat));
}

/// `m:ss` for a time given in nanoseconds (the whole seconds of it).
pub fn format_secs(nanos: u64) -> (r: String)
    ensures
        r@ == clock_text((nanos / 1_000_000_000) as nat),
{
    let mut s = String::new();
    push_clock(&mut s, nanos / 1_000_000_000);
    assert(s@ =~= clock_text((nanos / 1_000_000_000) as nat));
    s
}

/// `-m:ss` for the time left from `pos_nanos` to `total_nanos` (none once past the end).
pub fn format_secs_remaining(total_nanos: u64, pos_nanos: u64) -> (r: String)
    ensures
        r@ == seq!['-'] + clock_text(
            ((if total_nanos > pos_nanos { total_nanos - pos_nanos } else { 0 }) / 1_000_000_000) as nat,
        ),
{
    let rem = if total_nanos > pos_nanos { total_nanos - pos_nanos } else { 0 };
    let mut s = String::new();
    push_char(&mut s, '-');
    push_clock(&mut s, rem / 1_000_000_000);
    s
}


// ── Lyrics: dropping LRC timestamps ─────────────────────────────────────────

/// A character that may appear inside an LRC timestamp tag (`[01:23.45]`).
pub open spec fn is_stamp_char(c: char) -> bool {
    ('0' <= c && c <= '9') || c == ':' || c == '.'
}

/// Every character of `t` may appear in a timestamp (so the empty tag `[]` counts).
pub open spec fn is_stamp(t: Seq<char>) -> bool {
    forall|i: int| 0 <= i < t.len() ==> is_stamp_char(#[trigger] t[i])
}

/// Index of the first `c` in `s`, or -1.
pub open spec fn first_index_of(s: Seq<char>, c: char) -> int
    decreases s.len(),
{
    if s.len() == 0 {
        -1
    } else if s[0] == c {
        0
    } else {
        let r = first_index_of(s.drop_first(), c);
        if r < 0 {
            -1
        } else {
            r + 1
        }
    }
}

pub proof fn lemma_first_index_of(s: Seq<char>, c: char)
    ensures
        -1 <= first_index_of(s, c) < s.len(),
        first_index_of(s, c) >= 0 ==> s[first_index_of(s, c)] == c,
        forall|k: int| 0 <= k < first_index_of(s, c) ==> s[k] != c,
        first_index_of(s, c) < 0 ==> forall|k: int| 0 <= k < s.len() ==> s[k] != c,
    decreases s.len(),
{
    if s.len() > 0 && s[0] != c {
        lemma_first_index_of(s.drop_first(), c);
        assert forall|k: int| 0 <= k < first_index_of(s, c) implies s[k] != c by {
            if k > 0 {
                assert(s[k] == s.drop_first()[k - 1]);
            }
        }
        if first_index_of(s, c) < 0 {
            assert forall|k: int| 0 <= k < s.len() implies s[k] != c by {
                if k > 0 {
                    assert(s[k] == s.drop_first()[k - 1]);
                }
            }
        }
    }
}

/// The first `c` of `s` stands at `e`.
pub proof fn lemma_first_index_at(s: Seq<char>, c: char, e: int)
    requires
        0 <= e <= s.len(),
        e < s.len() ==> s[e] == c,
        forall|k: int| 0 <= k < e ==> s[k] != c,
    ensures
        first_index_of(s, c) == if e < s.len() { e } else { -1 },
{
    lemma_first_index_of(s, c);
    let f = first_index_of(s, c);
    if f >= 0 && f < e {
        assert(s[f] != c);
    }
    if e < s.len() && (f < 0 || f > e) {
        assert(s[e] == c);
    }
}

pub proof fn lemma_trim_start_len(s: Seq<char>)
    ensures
        trim_start(s).len() <= s.len(),
    decreases s.len(),
{
    if s.len() > 0 && is_ws(s[0]) {
        lemma_trim_start_len(s.drop_first());
    }
}

/// What is left of a trimmed line once its leading timestamp tags are gone:
/// while it starts with `[`, the text up to its first `]` is a timestamp,
/// that tag and the whitespace after it are dropped.
pub open spec fn strip_stamps(s: Seq<char>) -> Seq<char>
    decreases s.len(),
{
    if s.len() > 0 && s[0] == '[' && first_index_of(s, ']') > 0 && is_stamp(
        s.subrange(1, first_index_of(s, ']')),
    ) {
        proof {
            lemma_first_index_of(s, ']');
            lemma_trim_start_len(s.skip(first_index_of(s, ']') + 1));
        }
        strip_stamps(trim_start(s.skip(first_index_of(s, ']') + 1)))
    } else {
        s
    }
}

/// The lines of `s`: the pieces between `'\n'` characters (a trailing
/// `'\r'` is whitespace and goes with the trimming).
pub open spec fn lines_of(s: Seq<char>) -> Seq<Seq<char>>
    decreases s.len(),
{
    if s.len() == 0 {
        seq![Seq::empty()]
    } else {
        let prev = lines_of(s.drop_last());
        if s.last() == '\n' {
            prev.push(Seq::empty())
        } else {
            prev.update(prev.len() - 1, prev.last().push(s.last()))
        }
    }
}

/// A line as the cleaned lyrics hold it: trimmed and stripped of timestamps,
/// followed by a newline; nothing for a line that ends up empty.
pub open spec fn lyric_piece(line: Seq<char>) -> Seq<char> {
    let t = strip_stamps(trim(line));
    if t.len() > 0 {
        t.push('\n')
    } else {
        Seq::empty()
    }
}

/// The pieces of all `lines`, in order.
pub open spec fn render_lines(lines: Seq<Seq<char>>) -> Seq<char>
    decreases lines.len(),
{
    if lines.len() == 0 {
        Seq::empty()
    } else {
        render_lines(lines.drop_last()) + lyric_piece(lines.last())
    }
}

/// The lyrics with their timestamps gone: each line trimmed and stripped,
/// empty lines dropped, the rest joined by newlines, trailing whitespace cut.
pub open spec fn stripped_lyrics(raw: Seq<char>) -> Seq<char> {
    crate::text::trim_end(render_lines(lines_of(raw)))
}

/// Appends the piece of the line `v[lo..hi]`.
fn push_piece(out: &mut Vec<char>, v: &Vec<char>, lo: usize, hi: usize)
    requires
        lo <= hi <= v.len(),
    ensures
        final(out)@ == old(out)@ + lyric_piece(v@.subrange(lo as int, hi as int)),
{
    let ghost line = v@.subrange(lo as int, hi as int);
    // trim the end
    let mut b = hi;
    while b > lo && char_is_ws(v[b - 1])
        invariant
            lo <= b <= hi <= v.len(),
            crate::text::trim_end(v@.subrange(lo as int, b as int)) == crate::text::trim_end(line),
        decreases b,
    {
        assert(v@.subrange(lo as int, b as int).drop_last() =~= v@.subrange(lo as int, b - 1));
        b = b - 1;
    }
    assert(crate::text::trim_end(line) == v@.subrange(lo as int, b as int));
    // trim the start
    let mut a = lo;
    while a < b && char_is_ws(v[a])
        invariant
            lo <= a <= b <= hi <= v.len(),
            trim_start(v@.subrange(a as int, b as int)) == trim(line),
        decreases b - a,
    {
        assert(v@.subrange(a as int, b as int).drop_first() =~= v@.subrange(a + 1, b as int));
        a = a + 1;
    }
    assert(trim(line) == v@.subrange(a as int, b as int));
    // drop leading timestamp tags
    loop
        invariant
            lo <= a <= b <= hi <= v.len(),
            strip_stamps(v@.subrange(a as int, b as int)) == strip_stamps(trim(line)),
        ensures
            strip_stamps(trim(line)) == v@.subrange(a as int, b as int),
        decreases b - a,
    {
        let ghost s = v@.subrange(a as int, b as int);
        let ghost a_old = a;
        if a < b && v[a] == '[' {
            let mut e = a + 1;
            while e < b && v[e] != ']'
                invariant
                    a < e <= b <= v.len(),
                    v@[a as int] == '[',
                    forall|k: int| a <= k < e ==> v@[k] != ']',
                decreases b - e,
            {
                e = e + 1;
            }
            proof {
                assert forall|k: int| 0 <= k < e - a implies s[k] != ']' by {
                    assert(s[k] == v@[a + k]);
                }
                lemma_first_index_at(s, ']', e - a);
            }
            if e < b {
                let mut k = a + 1;
                let mut stamp = true;
                while k < e
                    invariant
                        a < k <= e < b <= v.len(),
                        stamp == (forall|j: int| a < j < k ==> is_stamp_char(#[trigger] v@[j])),
                    decreases e - k,
                {
                    let c = v[k];
                    if !(('0' <= c && c <= '9') || c == ':' || c == '.') {
                        stamp = false;
                    }
                    k = k + 1;
                }
                assert(s.subrange(1, e - a) =~= v@.subrange(a + 1, e as int));
                assert(stamp == is_stamp(s.subrange(1, e - a))) by {
                    if stamp {
                        assert forall|i: int| 0 <= i < e - a - 1 implies is_stamp_char(
                            #[trigger] s.subrange(1, e - a)[i],
                        ) by {
                            assert(s.subrange(1, e - a)[i] == v@[a + 1 + i]);
                        }
                    } else {
                        let j = choose|j: int| a < j < e && !is_stamp_char(#[trigger] v@[j]);
                        assert(s.subrange(1, e - a)[j - a - 1] == v@[j]);
                    }
                }
                if stamp {
                    assert(s.skip(e - a + 1) =~= v@.subrange(e + 1, b as int));
                    a = e + 1;
                    while a < b && char_is_ws(v[a])
                        invariant
                            lo <= a <= b <= hi <= v.len(),
                            a_old < e < a,
                            strip_stamps(trim_start(v@.subrange(a as int, b as int)))
                                == strip_stamps(trim(line)),
                        decreases b - a,
                    {
                        assert(v@.subrange(a as int, b as int).drop_first() =~= v@.subrange(
                            a + 1,
                            b as int,
                        ));
                        a = a + 1;
                    }
                    continue ;
                }
            }
        }
        break ;
    }
    if a < b {
        let mut k = a;
        while k < b
            invariant
                a <= k <= b <= v.len(),
                out@ == old(out)@ + v@.subrange(a as int, k as int),
            decreases b - k,
        {
            assert(v@.subrange(a as int, k as int).push(v@[k as int]) =~= v@.subrange(
                a as int,
                k + 1,
            ));
            out.push(v[k]);
            k = k + 1;
        }
        out.push('\n');
    }
    assert(out@ =~= old(out)@ + lyric_piece(line));
}

/// Removes LRC timestamps (`[mm:ss.xx]`, `[mm:ss]`) from the start of each
/// line, drops the lines that end up empty and joins the rest with newlines.
pub fn strip_lrc_timestamps(raw: &str) -> (r: String)
    ensures
        r@ == stripped_lyrics(raw@),
{
    let v = chars_of(raw);
    let mut out: Vec<char> = Vec::new();
    let mut start: usize = 0;
    let mut i: usize = 0;
    let ghost mut done: Seq<Seq<char>> = Seq::empty();
    assert(v@.take(0) =~= Seq::<char>::empty());
    assert(v@.subrange(0, 0) =~= Seq::<char>::empty());
    assert(done.push(Seq::<char>::empty()) =~= seq![Seq::<char>::empty()]);
    while i < v.len()
        invariant
            start <= i <= v.len(),
            lines_of(v@.take(i as int)) == done.push(v@.subrange(start as int, i as int)),
            out@ == render_lines(done),
        decreases v.len() - i,
    {
        let ghost prev = v@.take(i as int);
        assert(v@.take(i + 1).drop_last() =~= prev);
        if v[i] == '\n' {
            push_piece(&mut out, &v, start, i);
            proof {
                let line = v@.subrange(start as int, i as int);
                assert(done.push(line).drop_last() =~= done);
                done = done.push(line);
                assert(v@.subrange(i + 1, i + 1) =~= Seq::<char>::empty());
            }
            start = i + 1;
        } else {
            assert(v@.subrange(start as int, i as int).push(v@[i as int]) =~= v@.subrange(
                start as int,
                i + 1,
            ));
        }
        i = i + 1;
    }
    push_piece(&mut out, &v, start, v.len());
    proof {
        let line = v@.subrange(start as int, v.len() as int);
        assert(v@.take(v.len() as int) =~= v@);
        assert(done.push(line).drop_last() =~= done);
    }
    // trim the end
    let mut n = out.len();
    assert(out@.take(out.len() as int) =~= out@);
    while n > 0 && char_is_ws(out[n - 1])
        invariant
            n <= out.len(),
            crate::text::trim_end(out@.take(n as int)) == crate::text::trim_end(out@),
        decreases n,
    {
        assert(out@.take(n as int).drop_last() =~= out@.take(n - 1));
        n = n - 1;
    }
    assert(out@.take(out.len() as int) =~= out@);
    let mut kept: Vec<char> = Vec::new();
    let mut k: usize = 0;
    while k < n
        invariant
            k <= n <= out.len(),
            kept@ == out@.take(k as int),
        decreases n - k,
    {
        assert(out@.take(k as int).push(out@[k as int]) =~= out@.take(k + 1));
        kept.push(out[k]);
        k = k + 1;
    }
    string_of(&kept)
}


// ── Laws of the lyric cleanup ───────────────────────────────────────────────

/// `s` holds no line break.
pub open spec fn no_newline(s: Seq<char>) -> bool {
    forall|j: int| 0 <= j < s.len() ==> s[j] != '\n'
}

/// `s` is empty or starts and ends with a non-whitespace character.
pub open spec fn edges_ok(s: Seq<char>) -> bool {
    s.len() > 0 ==> !is_ws(s[0]) && !is_ws(s.last())
}

/// A line as cleaned: trimmed, then stripped of its leading timestamps.
pub open spec fn clean_line(l: Seq<char>) -> Seq<char> {
    strip_stamps(trim(l))
}

/// The cleaned lines of `lines` that are not empty, in order.
pub open spec fn kept_lines(lines: Seq<Seq<char>>) -> Seq<Seq<char>>
    decreases lines.len(),
{
    if lines.len() == 0 {
        Seq::empty()
    } else {
        let k = kept_lines(lines.drop_last());
        let t = clean_line(lines.last());
        if t.len() > 0 {
            k.push(t)
        } else {
            k
        }
    }
}

/// Each of `ts` followed by a newline.
pub open spec fn each_newline(ts: Seq<Seq<char>>) -> Seq<char>
    decreases ts.len(),
{
    if ts.len() == 0 {
        Seq::empty()
    } else {
        each_newline(ts.drop_last()) + ts.last().push('\n')
    }
}

/// `ts` joined by newlines.
pub open spec fn joined(ts: Seq<Seq<char>>) -> Seq<char>
    decreases ts.len(),
{
    if ts.len() == 0 {
        Seq::empty()
    } else if ts.len() == 1 {
        ts[0]
    } else {
        joined(ts.drop_last()).push('\n') + ts.last()
    }
}

proof fn lemma_trim_start_suffix(s: Seq<char>)
    ensures
        trim_start(s).len() <= s.len(),
        trim_start(s) == s.skip(s.len() - trim_start(s).len()),
        trim_start(s).len() > 0 ==> !is_ws(trim_start(s)[0]),
    decreases s.len(),
{
    if s.len() > 0 && is_ws(s[0]) {
        lemma_trim_start_suffix(s.drop_first());
        let t = trim_start(s.drop_first());
        assert(s.drop_first().skip(s.drop_first().len() - t.len()) =~= s.skip(s.len() - t.len()));
    } else {
        assert(s.skip(0) =~= s);
    }
}

proof fn lemma_trim_end_prefix(s: Seq<char>)
    ensures
        crate::text::trim_end(s).len() <= s.len(),
        crate::text::trim_end(s) == s.take(crate::text::trim_end(s).len() as int),
        crate::text::trim_end(s).len() > 0 ==> !is_ws(crate::text::trim_end(s).last()),
    decreases s.len(),
{
    if s.len() > 0 && is_ws(s.last()) {
        lemma_trim_end_prefix(s.drop_last());
        let t = crate::text::trim_end(s.drop_last());
        assert(s.drop_last().take(t.len() as int) =~= s.take(t.len() as int));
    } else {
        assert(s.take(s.len() as int) =~= s);
    }
}

proof fn lemma_trim_shape(l: Seq<char>)
    ensures
        edges_ok(trim(l)),
        no_newline(l) ==> no_newline(trim(l)),
{
    let y = crate::text::trim_end(l);
    lemma_trim_end_prefix(l);
    lemma_trim_start_suffix(y);
    let t = trim(l);
    if t.len() > 0 {
        assert(t.last() == y.last());
    }
    if no_newline(l) {
        assert forall|j: int| 0 <= j < t.len() implies t[j] != '\n' by {
            assert(t[j] == y[j + (y.len() - t.len())]);
            assert(y[j + (y.len() - t.len())] == l[j + (y.len() - t.len())]);
        }
    }
}

proof fn lemma_edges_trim_fixed(t: Seq<char>)
    requires
        edges_ok(t),
    ensures
        trim(t) == t,
{
}

/// Stripping keeps a suffix, keeps clean edges, and strips nothing more
/// when done again.
proof fn lemma_strip_stamps_shape(s: Seq<char>)
    requires
        edges_ok(s),
    ensures
        strip_stamps(s).len() <= s.len(),
        strip_stamps(s) == s.skip(s.len() - strip_stamps(s).len()),
        edges_ok(strip_stamps(s)),
        strip_stamps(strip_stamps(s)) == strip_stamps(s),
    decreases s.len(),
{
    if s.len() > 0 && s[0] == '[' && first_index_of(s, ']') > 0 && is_stamp(
        s.subrange(1, first_index_of(s, ']')),
    ) {
        lemma_first_index_of(s, ']');
        let e = first_index_of(s, ']');
        let x = s.skip(e + 1);
        let y = trim_start(x);
        lemma_trim_start_suffix(x);
        assert(y =~= s.skip(s.len() - y.len()));
        if y.len() > 0 {
            assert(y.last() == s.last());
        }
        lemma_strip_stamps_shape(y);
        let r = strip_stamps(y);
        assert(r =~= s.skip(s.len() - r.len()));
    } else {
        assert(s.skip(0) =~= s);
    }
}

proof fn lemma_clean_line(l: Seq<char>)
    ensures
        edges_ok(clean_line(l)),
        clean_line(clean_line(l)) == clean_line(l),
        no_newline(l) ==> no_newline(clean_line(l)),
{
    lemma_trim_shape(l);
    let t = trim(l);
    lemma_strip_stamps_shape(t);
    let c = clean_line(l);
    lemma_edges_trim_fixed(c);
    if no_newline(l) {
        assert forall|j: int| 0 <= j < c.len() implies c[j] != '\n' by {
            assert(c[j] == t[j + (t.len() - c.len())]);
        }
    }
}

proof fn lemma_lines_len(s: Seq<char>)
    ensures
        lines_of(s).len() >= 1,
    decreases s.len(),
{
    if s.len() > 0 {
        lemma_lines_len(s.drop_last());
    }
}

proof fn lemma_lines_no_newline(s: Seq<char>)
    ensures
        forall|i: int| 0 <= i < lines_of(s).len() ==> no_newline(#[trigger] lines_of(s)[i]),
    decreases s.len(),
{
    if s.len() > 0 {
        lemma_lines_no_newline(s.drop_last());
        lemma_lines_len(s.drop_last());
        let prev = lines_of(s.drop_last());
        if s.last() != '\n' {
            let l = prev.last().push(s.last());
            assert(no_newline(prev[prev.len() - 1]));
            assert forall|j: int| 0 <= j < l.len() implies l[j] != '\n' by {
                if j < l.len() - 1 {
                    assert(l[j] == prev.last()[j]);
                }
            }
            assert forall|i: int| 0 <= i < lines_of(s).len() implies no_newline(
                #[trigger] lines_of(s)[i],
            ) by {
                if i < prev.len() - 1 {
                    assert(lines_of(s)[i] == prev[i]);
                }
            }
        } else {
            assert forall|i: int| 0 <= i < lines_of(s).len() implies no_newline(
                #[trigger] lines_of(s)[i],
            ) by {
                if i < prev.len() {
                    assert(lines_of(s)[i] == prev[i]);
                }
            }
        }
    }
}

/// Appending text without line breaks extends the last line.
proof fn lemma_lines_append(a: Seq<char>, b: Seq<char>)
    requires
        no_newline(b),
    ensures
        lines_of(a + b) == lines_of(a).update(lines_of(a).len() - 1, lines_of(a).last() + b),
    decreases b.len(),
{
    lemma_lines_len(a);
    let la = lines_of(a);
    if b.len() == 0 {
        assert(a + b =~= a);
        assert(la.update(la.len() - 1, la.last() + b) =~= la);
    } else {
        let b1 = b.drop_last();
        assert(no_newline(b1)) by {
            assert forall|j: int| 0 <= j < b1.len() implies b1[j] != '\n' by {
                assert(b1[j] == b[j]);
            }
        }
        lemma_lines_append(a, b1);
        assert((a + b).drop_last() =~= a + b1);
        assert((a + b).last() == b.last());
        assert(b.last() != '\n');
        let prev = lines_of(a + b1);
        assert(prev.last() == la.last() + b1);
        assert(prev.last().push(b.last()) =~= la.last() + b);
        assert(lines_of(a + b) =~= la.update(la.len() - 1, la.last() + b));
    }
}

/// Splitting joined lines gives them back.
proof fn lemma_lines_of_joined(ts: Seq<Seq<char>>)
    requires
        ts.len() >= 1,
        forall|i: int| 0 <= i < ts.len() ==> no_newline(#[trigger] ts[i]),
    ensures
        lines_of(joined(ts)) == ts,
    decreases ts.len(),
{
    if ts.len() == 1 {
        lemma_lines_append(Seq::empty(), ts[0]);
        assert(Seq::<char>::empty() + ts[0] =~= ts[0]);
        assert(lines_of(Seq::<char>::empty()) =~= seq![Seq::<char>::empty()]);
        assert(seq![Seq::<char>::empty()].update(0, Seq::<char>::empty() + ts[0]) =~= ts);
    } else {
        let ts1 = ts.drop_last();
        assert forall|i: int| 0 <= i < ts1.len() implies no_newline(#[trigger] ts1[i]) by {
            assert(ts1[i] == ts[i]);
        }
        lemma_lines_of_joined(ts1);
        let a = joined(ts1).push('\n');
        assert(a.drop_last() =~= joined(ts1));
        assert(lines_of(a) == ts1.push(Seq::empty()));
        assert(no_newline(ts[ts.len() - 1]));
        lemma_lines_append(a, ts.last());
        assert(Seq::<char>::empty() + ts.last() =~= ts.last());
        assert(ts1.push(Seq::empty()).update(ts1.len() as int, ts.last()) =~= ts);
    }
}

/// Rendering lines gives each kept cleaned line followed by a newline.
proof fn lemma_render_kept(lines: Seq<Seq<char>>)
    ensures
        render_lines(lines) == each_newline(kept_lines(lines)),
    decreases lines.len(),
{
    if lines.len() > 0 {
        lemma_render_kept(lines.drop_last());
        let k = kept_lines(lines.drop_last());
        let t = clean_line(lines.last());
        if t.len() > 0 {
            assert(k.push(t).drop_last() =~= k);
        } else {
            assert(render_lines(lines) =~= render_lines(lines.drop_last()));
        }
    }
}

/// The kept lines are non-empty, have clean edges, hold no line break and
/// are left as they are by cleaning.
proof fn lemma_kept_shape(lines: Seq<Seq<char>>)
    requires
        forall|i: int| 0 <= i < lines.len() ==> no_newline(#[trigger] lines[i]),
    ensures
        forall|i: int|
            0 <= i < kept_lines(lines).len() ==> {
                let t = #[trigger] kept_lines(lines)[i];
                &&& t.len() > 0
                &&& edges_ok(t)
                &&& no_newline(t)
                &&& clean_line(t) == t
            },
    decreases lines.len(),
{
    if lines.len() > 0 {
        let l1 = lines.drop_last();
        assert forall|i: int| 0 <= i < l1.len() implies no_newline(#[trigger] l1[i]) by {
            assert(l1[i] == lines[i]);
        }
        lemma_kept_shape(l1);
        assert(no_newline(lines[lines.len() - 1]));
        lemma_clean_line(lines.last());
        let k = kept_lines(l1);
        let t = clean_line(lines.last());
        if t.len() > 0 {
            assert forall|i: int| 0 <= i < k.push(t).len() implies {
                let u = #[trigger] k.push(t)[i];
                &&& u.len() > 0
                &&& edges_ok(u)
                &&& no_newline(u)
                &&& clean_line(u) == u
            } by {
                if i < k.len() {
                    assert(k.push(t)[i] == k[i]);
                }
            }
        }
    }
}

proof fn lemma_kept_fixed(ts: Seq<Seq<char>>)
    requires
        forall|i: int| 0 <= i < ts.len() ==> (#[trigger] ts[i]).len() > 0 && clean_line(ts[i]) == ts[i],
    ensures
        kept_lines(ts) == ts,
    decreases ts.len(),
{
    if ts.len() > 0 {
        let t1 = ts.drop_last();
        assert forall|i: int| 0 <= i < t1.len() implies (#[trigger] t1[i]).len() > 0 && clean_line(t1[i])
            == t1[i] by {
            assert(t1[i] == ts[i]);
        }
        lemma_kept_fixed(t1);
        assert(ts[ts.len() - 1].len() > 0);
        assert(t1.push(ts.last()) =~= ts);
    }
}

proof fn lemma_each_newline_joined(ts: Seq<Seq<char>>)
    requires
        forall|i: int| 0 <= i < ts.len() ==> (#[trigger] ts[i]).len() > 0 && edges_ok(ts[i]),
    ensures
        crate::text::trim_end(each_newline(ts)) == joined(ts),
        ts.len() > 0 ==> each_newline(ts) == joined(ts).push('\n'),
    decreases ts.len(),
{
    if ts.len() > 0 {
        let t1 = ts.drop_last();
        assert forall|i: int| 0 <= i < t1.len() implies (#[trigger] t1[i]).len() > 0 && edges_ok(t1[i]) by {
            assert(t1[i] == ts[i]);
        }
        lemma_each_newline_joined(t1);
        let t = ts.last();
        assert(t.len() > 0 && edges_ok(t)) by {
            assert(ts[ts.len() - 1] == t);
        }
        if ts.len() == 1 {
            assert(each_newline(ts) =~= t.push('\n'));
        } else {
            assert(each_newline(ts) =~= joined(t1).push('\n') + t.push('\n'));
            assert(joined(ts) == joined(t1).push('\n') + t);
        }
        let w = joined(ts);
        assert(each_newline(ts) =~= w.push('\n'));
        assert(w.push('\n').drop_last() =~= w);
        assert(w.len() > 0 && w.last() == t.last());
        assert(crate::text::trim_end(w.push('\n')) == crate::text::trim_end(w));
    }
}

/// Cleaning lyrics a second time changes nothing: no line of the result
/// starts with a timestamp, is blank or has whitespace at either end.
pub proof fn lemma_stripped_lyrics_idempotent(raw: Seq<char>)
    ensures
        stripped_lyrics(stripped_lyrics(raw)) == stripped_lyrics(raw),
{
    let lines = lines_of(raw);
    lemma_lines_no_newline(raw);
    lemma_kept_shape(lines);
    lemma_render_kept(lines);
    let ts = kept_lines(lines);
    lemma_each_newline_joined(ts);
    let out = stripped_lyrics(raw);
    assert(out == joined(ts));
    if ts.len() == 0 {
        assert(out =~= Seq::<char>::empty());
        assert(lines_of(out) =~= seq![Seq::<char>::empty()]);
        lemma_render_kept(lines_of(out));
        assert(kept_lines(lines_of(out)).len() == 0) by {
            let e = Seq::<char>::empty();
            let one = seq![e];
            assert(one.drop_last() =~= Seq::<Seq<char>>::empty());
            assert(one.last() == e);
            assert(crate::text::trim_end(e) == e);
            assert(trim_start(e) == e);
            assert(trim(e) == e);
            assert(strip_stamps(e) == e);
            assert(clean_line(e).len() == 0);
            assert(kept_lines(Seq::<Seq<char>>::empty()).len() == 0);
            assert(kept_lines(one) == kept_lines(one.drop_last()));
        }
    } else {
        lemma_lines_of_joined(ts);
        lemma_kept_fixed(ts);
        lemma_render_kept(ts);
    }
}

/// Text without a line break is a single line.
proof fn lemma_lines_single(s: Seq<char>)
    requires
        no_newline(s),
    ensures
        lines_of(s) == seq![s],
    decreases s.len(),
{
    if s.len() > 0 {
        let d = s.drop_last();
        assert(no_newline(d)) by {
            assert forall|j: int| 0 <= j < d.len() implies d[j] != '\n' by {
                assert(d[j] == s[j]);
            }
        }
        lemma_lines_single(d);
        assert(s.last() == s[s.len() - 1]);
        assert(d.push(s.last()) =~= s);
        assert(seq![d].update(0, s) =~= seq![s]);
    } else {
        assert(s =~= Seq::<char>::empty());
    }
}

/// A line made of a tag `[t]`, where `t` holds only ASCII digits, `:` and
/// `.`, followed by text `x` with no whitespace at either end that does not
/// start with `[`, is cleaned to `x`: the tag is a timestamp and goes. As
/// the whole lyrics, such a line (without line breaks) comes out as `x`.
pub proof fn lemma_timestamp_dropped(t: Seq<char>, x: Seq<char>)
    requires
        forall|i: int|
            0 <= i < t.len() ==> ('0' <= #[trigger] t[i] && t[i] <= '9') || t[i] == ':' || t[i] == '.',
        x.len() > 0 ==> !is_ws(x[0]) && !is_ws(x.last()) && x[0] != '[',
    ensures
        clean_line(seq!['['] + t + seq![']'] + x) == x,
        (forall|i: int| 0 <= i < x.len() ==> x[i] != '\n') ==> stripped_lyrics(
            seq!['['] + t + seq![']'] + x,
        ) == x,
{
    let l = seq!['['] + t + seq![']'] + x;
    let e: int = t.len() as int + 1;
    assert(l[0] == '[');
    assert(l.last() == if x.len() > 0 { x.last() } else { ']' });
    assert(edges_ok(l));
    lemma_edges_trim_fixed(l);
    assert forall|k: int| 0 <= k < e implies l[k] != ']' by {
        if k > 0 {
            assert(l[k] == t[k - 1]);
        }
    }
    assert(l[e] == ']');
    lemma_first_index_at(l, ']', e);
    assert(l.subrange(1, e) =~= t);
    assert(is_stamp(t));
    assert(l.skip(e + 1) =~= x);
    assert(trim_start(x) == x);
    assert(strip_stamps(x) == x);
    assert(strip_stamps(l) == x);
    if forall|i: int| 0 <= i < x.len() ==> x[i] != '\n' {
        assert(no_newline(l)) by {
            assert forall|j: int| 0 <= j < l.len() implies l[j] != '\n' by {
                if 0 < j < e {
                    assert(l[j] == t[j - 1]);
                } else if j > e {
                    assert(l[j] == x[j - e - 1]);
                }
            }
        }
        lemma_lines_single(l);
        let one = seq![l];
        assert(one.drop_last() =~= Seq::<Seq<char>>::empty());
        assert(one.last() == l);
        assert(render_lines(Seq::<Seq<char>>::empty()) == Seq::<char>::empty());
        assert(Seq::<char>::empty() + lyric_piece(l) =~= lyric_piece(l));
        assert(render_lines(one) == lyric_piece(l));
        if x.len() > 0 {
            assert(x.push('\n').drop_last() =~= x);
            assert(crate::text::trim_end(x.push('\n')) == crate::text::trim_end(x));
        } else {
            assert(lyric_piece(l) =~= Seq::<char>::empty());
        }
    }
}

/// A line that starts with a tag `[t]` holding a character other than an
/// ASCII digit, `:` or `.` (and no `]`) keeps that tag: it is no timestamp,
/// and the line is left as it is.
pub proof fn lemma_other_tag_kept(t: Seq<char>, x: Seq<char>, j: int)
    requires
        0 <= j < t.len(),
        !(('0' <= t[j] && t[j] <= '9') || t[j] == ':' || t[j] == '.'),
        forall|i: int| 0 <= i < t.len() ==> t[i] != ']',
        x.len() > 0 ==> !is_ws(x.last()),
    ensures
        clean_line(seq!['['] + t + seq![']'] + x) == seq!['['] + t + seq![']'] + x,
{
    let l = seq!['['] + t + seq![']'] + x;
    let e: int = t.len() as int + 1;
    assert(l[0] == '[');
    assert(l.last() == if x.len() > 0 { x.last() } else { ']' });
    assert(edges_ok(l));
    lemma_edges_trim_fixed(l);
    assert forall|k: int| 0 <= k < e implies l[k] != ']' by {
        if k > 0 {
            assert(l[k] == t[k - 1]);
        }
    }
    assert(l[e] == ']');
    lemma_first_index_at(l, ']', e);
    assert(l.subrange(1, e) =~= t);
    assert(!is_stamp_char(t[j]));
    assert(!is_stamp(t));
}

// ── Track metadata ──────────────────────────────────────────────────────────

/// What is known of an audio file: its tags, length, sample rate, lyrics
/// (timestamps removed) and embedded cover art.
#[derive(Debug, Clone)]
pub struct TrackMeta {
    pub title: String,
    pub artist: String,
    pub album: String,
    /// Length in nanoseconds.
    pub duration_ns: u64,
    pub sample_rate: Option<u32>,
    pub lyrics: Option<String>,
    pub cover_art: Option<Vec<u8>>,
}

/// The fields of a [`TrackMeta`] as plain values.
pub struct TrackMetaView {
    pub title: Seq<char>,
    pub artist: Seq<char>,
    pub album: Seq<char>,
    pub duration_ns: u64,
    pub sample_rate: Option<u32>,
    pub lyrics: Option<Seq<char>>,
    pub cover_art: Option<Seq<u8>>,
}

impl View for TrackMeta {
    type V = TrackMetaView;

    open spec fn view(&self) -> TrackMetaView {
        TrackMetaView {
            title: self.title@,
            artist: self.artist@,
            album: self.album@,
            duration_ns: self.duration_ns,
            sample_rate: self.sample_rate,
            lyrics: self.lyrics.deep_view(),
            cover_art: self.cover_art.deep_view(),
        }
    }
}

/// The fields of a file's primary tag, each as the tag holds it (if at all).
#[derive(Debug, Clone)]
pub struct TagFields {
    pub title: Option<String>,
    pub artist: Option<String>,
    pub album: Option<String>,
    /// The raw lyrics item, timestamps included.
    pub lyrics: Option<String>,
    /// The data of the first embedded picture.
    pub cover_art: Option<Vec<u8>>,
}

/// What reading an audio file's properties and tags gave.
#[derive(Debug, Clone)]
pub struct ProbedFile {
    pub duration_ns: u64,
    pub sample_rate: Option<u32>,
    pub primary_tag: Option<TagFields>,
}

/// The fields of a [`TagFields`] as plain values.
pub struct TagFieldsView {
    pub title: Option<Seq<char>>,
    pub artist: Option<Seq<char>>,
    pub album: Option<Seq<char>>,
    pub lyrics: Option<Seq<char>>,
    pub cover_art: Option<Seq<u8>>,
}

impl View for TagFields {
    type V = TagFieldsView;

    open spec fn view(&self) -> TagFieldsView {
        TagFieldsView {
            title: self.title.deep_view(),
            artist: self.artist.deep_view(),
            album: self.album.deep_view(),
            lyrics: self.lyrics.deep_view(),
            cover_art: self.cover_art.deep_view(),
        }
    }
}

/// The fields of a [`ProbedFile`] as plain values.
pub struct ProbedFileView {
    pub duration_ns: u64,
    pub sample_rate: Option<u32>,
    pub primary_tag: Option<TagFieldsView>,
}

impl View for ProbedFile {
    type V = ProbedFileView;

    open spec fn view(&self) -> ProbedFileView {
        ProbedFileView {
            duration_ns: self.duration_ns,
            sample_rate: self.sample_rate,
            primary_tag: match self.primary_tag {
                Some(t) => Some(t@),
                None => None,
            },
        }
    }
}

/// What a probe gave, as plain values.
pub open spec fn probed_view(p: Option<ProbedFile>) -> Option<ProbedFileView> {
    match p {
        Some(f) => Some(f@),
        None => None,
    }
}

/// The metadata of a file from its stem and what its tags gave: the stem
/// (or `Unknown`) and `Unknown Artist` by default, the tag's values where it has them.
pub open spec fn meta_from_tags(stem: Option<Seq<char>>, probed: Option<ProbedFileView>) -> TrackMetaView {
    let title = match stem {
        Some(t) => t,
        None => "Unknown"@,
    };
    match probed {
        None => TrackMetaView {
            title,
            artist: "Unknown Artist"@,
            album: Seq::empty(),
            duration_ns: 0,
            sample_rate: None,
            lyrics: None,
            cover_art: None,
        },
        Some(p) => match p.primary_tag {
            None => TrackMetaView {
                title,
                artist: "Unknown Artist"@,
                album: Seq::empty(),
                duration_ns: p.duration_ns,
                sample_rate: p.sample_rate,
                lyrics: None,
                cover_art: None,
            },
            Some(t) => TrackMetaView {
                title: match t.title {
                    Some(x) => x,
                    None => title,
                },
                artist: match t.artist {
                    Some(x) => x,
                    None => "Unknown Artist"@,
                },
                album: match t.album {
                    Some(x) => x,
                    None => Seq::empty(),
                },
                duration_ns: p.duration_ns,
                sample_rate: p.sample_rate,
                lyrics: match t.lyrics {
                    Some(raw) => Some(stripped_lyrics(raw)),
                    None => None,
                },
                cover_art: t.cover_art,
            },
        },
    }
}

/// What `lofty` reads from the content `bytes` of a file with extension
/// `ext`: the file's length, sample rate and primary tag; `None` where the
/// extension names no format it reads or the content does not parse.
pub uninterp spec fn probed_tags(ext: Seq<char>, bytes: Seq<u8>) -> Option<ProbedFileView>;

/// Parses the content of an audio file in memory with `lofty`: the format
/// comes from the extension (`FileType::from_ext`, as `Probe::open` takes
/// it from a path), then `Probe::read` parses it. Claimed: the result is the
/// one named by [`probed_tags`], a function of the extension and the bytes
/// alone; nothing is claimed of its fields.
#[verifier::external_body]
fn read_tags(ext: &str, bytes: &[u8]) -> (r: Option<ProbedFile>)
    ensures
        probed_view(r) == probed_tags(ext@, bytes@),
{
    let tagged = Probe::with_file_type(std::io::Cursor::new(bytes), FileType::from_ext(ext)?).read().ok()?;
    let props = tagged.properties();
    let primary_tag = tagged.primary_tag().map(|tag| TagFields {
        title: tag.title().map(Into::into),
        artist: tag.artist().map(Into::into),
        album: tag.album().map(Into::into),
        lyrics: tag.get_string(&ItemKey::Lyrics).map(Into::into),
        cover_art: tag.pictures().first().map(|p| p.data().to_vec()),
    });
    Some(ProbedFile { duration_ns: props.duration().as_nanos() as u64, sample_rate: props.sample_rate(), primary_tag })
}

/// A file that was read shows its own length and sample rate, and what its
/// primary tag holds: its title, artist and album where it has them (else
/// the file's stem or `Unknown`, `Unknown Artist` and no album), its lyrics
/// without timestamps and its cover art. A file that could not be read shows
/// only the defaults.
pub proof fn lemma_meta_fields(stem: Option<Seq<char>>, p: Option<ProbedFileView>)
    ensures
        ({
            let m = meta_from_tags(stem, p);
            let tag = if p is Some { p->0.primary_tag } else { None };
            &&& m.duration_ns == (if p is Some { p->0.duration_ns } else { 0 })
            &&& m.sample_rate == (if p is Some { p->0.sample_rate } else { None })
            &&& (tag is Some && tag->0.title is Some ==> m.title == tag->0.title->0)
            &&& (!(tag is Some && tag->0.title is Some) && stem is Some ==> m.title == stem->0)
            &&& (!(tag is Some && tag->0.title is Some) && stem is None ==> m.title == "Unknown"@)
            &&& (tag is Some && tag->0.artist is Some ==> m.artist == tag->0.artist->0)
            &&& (!(tag is Some && tag->0.artist is Some) ==> m.artist == "Unknown Artist"@)
            &&& (tag is Some && tag->0.album is Some ==> m.album == tag->0.album->0)
            &&& (!(tag is Some && tag->0.album is Some) ==> m.album.len() == 0)
            &&& (tag is Some && tag->0.lyrics is Some ==> m.lyrics == Some(stripped_lyrics(tag->0.lyrics->0)))
            &&& (!(tag is Some && tag->0.lyrics is Some) ==> m.lyrics is None)
            &&& (tag is Some ==> m.cover_art == tag->0.cover_art)
            &&& (tag is None ==> m.cover_art is None)
        }),
{
}

impl TrackMeta {
    /// Builds the metadata of a file from its stem (`None` where the file name
    /// has none) and from what its properties and primary tag gave (`None`
    /// where the file could not be read).
    pub fn from_tags(stem: Option<String>, probed: Option<ProbedFile>) -> (m: TrackMeta)
        ensures
            m@ == meta_from_tags(stem.deep_view(), probed_view(probed)),
    {
        let ghost p0 = probed;
        let title = match stem {
            Some(t) => t,
            None => String::from_str("Unknown"),
        };
        let mut meta = TrackMeta {
            title,
            artist: String::from_str("Unknown Artist"),
            album: String::new(),
            duration_ns: 0,
            sample_rate: None,
            lyrics: None,
            cover_art: None,
        };
        match probed {
            None => {},
            Some(p) => {
                meta.duration_ns = p.duration_ns;
                meta.sample_rate = p.sample_rate;
                match p.primary_tag {
                    None => {},
                    Some(tag) => {
                        if let Some(t) = tag.title {
                            meta.title = t;
                        }
                        if let Some(a) = tag.artist {
                            meta.artist = a;
                        }
                        if let Some(a) = tag.album {
                            meta.album = a;
                        }
                        if let Some(raw) = tag.lyrics {
                            meta.lyrics = Some(strip_lrc_timestamps(raw.as_str()));
                        }
                        meta.cover_art = tag.cover_art;
                    },
                }
            },
        }
        assert(meta@ =~= meta_from_tags(stem.deep_view(), probed_view(p0)));
        meta
    }

    /// The metadata of a file whose name has stem `stem` (`None` where it has
    /// none) and extension `ext` (empty where it has none), given its
    /// content, or `None` where the file could not be read: its tags as
    /// `lofty` reads them, with the defaults where they say nothing.
    pub fn load(stem: Option<String>, ext: &str, bytes: Option<&[u8]>) -> (m: TrackMeta)
        ensures
            m@ == meta_from_tags(
                stem.deep_view(),
                match bytes {
                    Some(b) => probed_tags(ext@, b@),
                    None => None,
                },
            ),
    {
        let probed = match bytes {
            Some(b) => read_tags(ext, b),
            None => None,
        };
        TrackMeta::from_tags(stem, probed)
    }

    /// The track's length as `m:ss`.
    pub fn format_duration(&self) -> (r: String)
        ensures
            r@ == clock_text((self.duration_ns / 1_000_000_000) as nat),
    {
        format_secs(self.duration_ns)
    }
}

} // verus!
