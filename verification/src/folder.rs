//! Choosing the audio files found in a folder and putting them in path
//! order. Each path is given by its components (the folder's own, then the
//! names below it), each as text.

use vstd::prelude::*;

use crate::playlist::{audio_ext_chars, is_audio_ext};
use crate::text::chars_of;

verus! {

// ── Path order ──────────────────────────────────────────────────────────────

/// Character-by-character order of two texts: -1, 0 or 1 as `a` comes
/// before, equals or comes after `b` (a text comes after its prefixes).
pub open spec fn text_order(a: Seq<char>, b: Seq<char>) -> int
    decreases a.len(),
{
    if a.len() == 0 {
        if b.len() == 0 {
            0
        } else {
            -1
        }
    } else if b.len() == 0 {
        1
    } else if a[0] < b[0] {
        -1
    } else if b[0] < a[0] {
        1
    } else {
        text_order(a.drop_first(), b.drop_first())
    }
}

/// Component-by-component order of two paths, each component compared as
/// text: -1, 0 or 1.
pub open spec fn path_order(a: Seq<Seq<char>>, b: Seq<Seq<char>>) -> int
    decreases a.len(),
{
    if a.len() == 0 {
        if b.len() == 0 {
            0
        } else {
            -1
        }
    } else if b.len() == 0 {
        1
    } else if text_order(a[0], b[0]) != 0 {
        text_order(a[0], b[0])
    } else {
        path_order(a.drop_first(), b.drop_first())
    }
}

/// Path `i` of `paths` comes before path `j`: by path order, and by
/// position where the two paths are the same.
pub open spec fn path_before(paths: Seq<Seq<Seq<char>>>, i: int, j: int) -> bool {
    path_order(paths[i], paths[j]) < 0 || (path_order(paths[i], paths[j]) == 0 && i < j)
}

/// The text order is an order: its value is -1, 0 or 1, swapping the texts
/// negates it, and 0 means the texts are equal.
pub proof fn lemma_text_order(a: Seq<char>, b: Seq<char>)
    ensures
        -1 <= text_order(a, b) <= 1,
        text_order(a, b) == -text_order(b, a),
        text_order(a, b) == 0 ==> a == b,
    decreases a.len(),
{
    if a.len() > 0 && b.len() > 0 && a[0] == b[0] {
        lemma_text_order(a.drop_first(), b.drop_first());
        if text_order(a, b) == 0 {
            assert(a =~= seq![a[0]] + a.drop_first());
            assert(b =~= seq![b[0]] + b.drop_first());
        }
    }
}

/// The text order is transitive.
pub proof fn lemma_text_order_trans(a: Seq<char>, b: Seq<char>, c: Seq<char>)
    requires
        text_order(a, b) < 0,
        text_order(b, c) < 0,
    ensures
        text_order(a, c) < 0,
    decreases a.len(),
{
    if a.len() > 0 && b.len() > 0 && c.len() > 0 && a[0] == b[0] && b[0] == c[0] {
        lemma_text_order_trans(a.drop_first(), b.drop_first(), c.drop_first());
    }
}

/// The path order is an order: its value is -1, 0 or 1, swapping the paths
/// negates it, and 0 means the paths are equal.
pub proof fn lemma_path_order(a: Seq<Seq<char>>, b: Seq<Seq<char>>)
    ensures
        -1 <= path_order(a, b) <= 1,
        path_order(a, b) == -path_order(b, a),
        path_order(a, b) == 0 ==> a == b,
    decreases a.len(),
{
    if a.len() > 0 && b.len() > 0 {
        lemma_text_order(a[0], b[0]);
        if text_order(a[0], b[0]) == 0 {
            lemma_path_order(a.drop_first(), b.drop_first());
            if path_order(a, b) == 0 {
                assert(a =~= seq![a[0]] + a.drop_first());
                assert(b =~= seq![b[0]] + b.drop_first());
            }
        }
    }
}

/// The path order is transitive.
pub proof fn lemma_path_order_trans(a: Seq<Seq<char>>, b: Seq<Seq<char>>, c: Seq<Seq<char>>)
    requires
        path_order(a, b) < 0,
        path_order(b, c) < 0,
    ensures
        path_order(a, c) < 0,
    decreases a.len(),
{
    if a.len() > 0 && b.len() > 0 && c.len() > 0 {
        lemma_text_order(a[0], b[0]);
        lemma_text_order(b[0], c[0]);
        lemma_text_order(a[0], c[0]);
        let ab = text_order(a[0], b[0]);
        let bc = text_order(b[0], c[0]);
        if ab < 0 && bc < 0 {
            lemma_text_order_trans(a[0], b[0], c[0]);
        } else if ab == 0 && bc == 0 {
            lemma_path_order_trans(a.drop_first(), b.drop_first(), c.drop_first());
        }
    }
}

/// "Comes before" is transitive.
pub proof fn lemma_before_trans(paths: Seq<Seq<Seq<char>>>, i: int, j: int, k: int)
    requires
        path_before(paths, i, j),
        path_before(paths, j, k),
    ensures
        path_before(paths, i, k),
{
    lemma_path_order(paths[i], paths[j]);
    lemma_path_order(paths[j], paths[k]);
    lemma_path_order(paths[i], paths[k]);
    if path_order(paths[i], paths[j]) < 0 && path_order(paths[j], paths[k]) < 0 {
        lemma_path_order_trans(paths[i], paths[j], paths[k]);
    }
}

/// Of two different positions, one comes before the other.
pub proof fn lemma_before_total(paths: Seq<Seq<Seq<char>>>, i: int, j: int)
    requires
        i != j,
    ensures
        path_before(paths, i, j) || path_before(paths, j, i),
{
    lemma_path_order(paths[i], paths[j]);
}

proof fn lemma_text_order_step(a: Seq<char>, b: Seq<char>, k: int)
    requires
        0 <= k < a.len(),
        k < b.len(),
        a[k] == b[k],
    ensures
        text_order(a.skip(k), b.skip(k)) == text_order(a.skip(k + 1), b.skip(k + 1)),
{
    assert(a.skip(k).drop_first() =~= a.skip(k + 1));
    assert(b.skip(k).drop_first() =~= b.skip(k + 1));
}

proof fn lemma_path_order_step(a: Seq<Seq<char>>, b: Seq<Seq<char>>, k: int)
    requires
        0 <= k < a.len(),
        k < b.len(),
        text_order(a[k], b[k]) == 0,
    ensures
        path_order(a.skip(k), b.skip(k)) == path_order(a.skip(k + 1), b.skip(k + 1)),
{
    assert(a.skip(k).drop_first() =~= a.skip(k + 1));
    assert(b.skip(k).drop_first() =~= b.skip(k + 1));
}

fn text_order_of(a: &Vec<char>, b: &Vec<char>) -> (r: i8)
    ensures
        r == text_order(a@, b@),
{
    let mut k: usize = 0;
    assert(a@.skip(0) =~= a@);
    assert(b@.skip(0) =~= b@);
    while k < a.len() && k < b.len()
        invariant
            k <= a.len(),
            k <= b.len(),
            text_order(a@, b@) == text_order(a@.skip(k as int), b@.skip(k as int)),
        decreases a.len() - k,
    {
        if a[k] < b[k] {
            return -1;
        }
        if b[k] < a[k] {
            return 1;
        }
        proof {
            lemma_text_order_step(a@, b@, k as int);
        }
        k = k + 1;
    }
    if k == a.len() {
        if k == b.len() {
            0
        } else {
            -1
        }
    } else {
        1
    }
}

fn path_order_of(a: &Vec<Vec<char>>, b: &Vec<Vec<char>>) -> (r: i8)
    ensures
        r == path_order(a.deep_view(), b.deep_view()),
{
    let ghost da = a.deep_view();
    let ghost db = b.deep_view();
    let mut k: usize = 0;
    assert(da.skip(0) =~= da);
    assert(db.skip(0) =~= db);
    while k < a.len() && k < b.len()
        invariant
            da == a.deep_view(),
            db == b.deep_view(),
            k <= a.len(),
            k <= b.len(),
            path_order(da, db) == path_order(da.skip(k as int), db.skip(k as int)),
        decreases a.len() - k,
    {
        let c = text_order_of(&a[k], &b[k]);
        assert(da[k as int] =~= a@[k as int]@);
        assert(db[k as int] =~= b@[k as int]@);
        if c != 0 {
            assert(da.skip(k as int)[0] == da[k as int]);
            assert(db.skip(k as int)[0] == db[k as int]);
            return c;
        }
        proof {
            lemma_path_order_step(da, db, k as int);
        }
        k = k + 1;
    }
    if k == a.len() {
        if k == b.len() {
            0
        } else {
            -1
        }
    } else {
        1
    }
}

// ── Audio files ─────────────────────────────────────────────────────────────

/// Position of the last `c` in `s` (-1 where there is none).
pub open spec fn last_index_of(s: Seq<char>, c: char) -> int
    decreases s.len(),
{
    if s.len() == 0 {
        -1
    } else if s.last() == c {
        s.len() - 1
    } else {
        last_index_of(s.drop_last(), c)
    }
}

/// The extension of a file name, as `Path::extension` takes it: what
/// follows its last dot; none where the name has no dot, where its only dot
/// starts it, or where the name is `..`.
pub open spec fn name_ext(name: Seq<char>) -> Option<Seq<char>> {
    let i = last_index_of(name, '.');
    if name == seq!['.', '.'] || i <= 0 {
        None
    } else {
        Some(name.skip(i + 1))
    }
}

/// A path names an audio file: its last component has an extension taken
/// for audio.
pub open spec fn is_audio_path(p: Seq<Seq<char>>) -> bool {
    p.len() > 0 && match name_ext(p.last()) {
        Some(e) => is_audio_ext(e),
        None => false,
    }
}

proof fn lemma_last_index_range(s: Seq<char>, c: char)
    ensures
        -1 <= last_index_of(s, c) < s.len(),
        last_index_of(s, c) >= 0 ==> s[last_index_of(s, c)] == c,
    decreases s.len(),
{
    if s.len() > 0 && s.last() != c {
        lemma_last_index_range(s.drop_last(), c);
    }
}

fn last_dot(v: &Vec<char>) -> (r: Option<usize>)
    ensures
        match r {
            Some(i) => i == last_index_of(v@, '.'),
            None => last_index_of(v@, '.') == -1,
        },
{
    let mut i: usize = v.len();
    assert(v@.take(i as int) =~= v@);
    while i > 0
        invariant
            i <= v.len(),
            last_index_of(v@, '.') == last_index_of(v@.take(i as int), '.'),
        decreases i,
    {
        assert(v@.take(i as int).drop_last() =~= v@.take(i - 1));
        if v[i - 1] == '.' {
            return Some(i - 1);
        }
        i = i - 1;
    }
    None
}

/// Whether the file name whose characters are `name` has an audio extension.
fn is_audio_name(name: &Vec<char>) -> (r: bool)
    ensures
        r == match name_ext(name@) {
            Some(e) => is_audio_ext(e),
            None => false,
        },
{
    proof {
        lemma_last_index_range(name@, '.');
    }
    if name.len() == 2 && name[0] == '.' && name[1] == '.' {
        assert(name@ =~= seq!['.', '.']);
        return false;
    }
    assert(name@ != seq!['.', '.']) by {
        if name@ == seq!['.', '.'] {
            assert(name@.len() == 2 && name@[0] == '.' && name@[1] == '.');
        }
    }
    match last_dot(name) {
        None => false,
        Some(i) => {
            if i == 0 {
                return false;
            }
            let mut ext: Vec<char> = Vec::new();
            let mut j: usize = i + 1;
            while j < name.len()
                invariant
                    i < name.len(),
                    i + 1 <= j <= name.len(),
                    ext@ == name@.subrange(i + 1, j as int),
                decreases name.len() - j,
            {
                ext.push(name[j]);
                j = j + 1;
                assert(ext@ =~= name@.subrange(i + 1, j as int));
            }
            assert(ext@ =~= name@.skip(i + 1));
            audio_ext_chars(&ext)
        },
    }
}

/// The components of a path as character vectors.
fn components_chars(p: &Vec<String>) -> (r: Vec<Vec<char>>)
    ensures
        r.deep_view() == p.deep_view(),
{
    let mut r: Vec<Vec<char>> = Vec::new();
    let mut i: usize = 0;
    while i < p.len()
        invariant
            i <= p.len(),
            r.len() == i,
            forall|j: int| 0 <= j < i ==> (#[trigger] r@[j])@ == p@[j]@,
        decreases p.len() - i,
    {
        r.push(chars_of(p[i].as_str()));
        i = i + 1;
    }
    assert forall|j: int| 0 <= j < r.len() implies #[trigger] r.deep_view()[j] == p.deep_view()[j] by {
        assert(r@[j].deep_view() =~= r@[j]@);
    }
    assert(r.deep_view() =~= p.deep_view());
    r
}

/// The audio files among `paths`, as positions in `paths`, in path order
/// (paths compared component by component, each component character by
/// character; equal paths in the order given). For the files found below
/// one folder this is the order in which `PathBuf`s sort.
pub fn audio_file_order(paths: &Vec<Vec<String>>) -> (r: Vec<usize>)
    ensures
        forall|k: int|
            0 <= k < r.len() ==> (#[trigger] r@[k]) < paths.len() && is_audio_path(
                paths.deep_view()[r@[k] as int],
            ),
        forall|i: int|
            0 <= i < paths.len() && is_audio_path(#[trigger] paths.deep_view()[i]) ==> r@.contains(
                i as usize,
            ),
        forall|k1: int, k2: int|
            0 <= k1 < k2 < r.len() ==> path_before(
                paths.deep_view(),
                #[trigger] r@[k1] as int,
                #[trigger] r@[k2] as int,
            ),
{
    let ghost dv = paths.deep_view();
    let mut comps: Vec<Vec<Vec<char>>> = Vec::new();
    let mut i: usize = 0;
    while i < paths.len()
        invariant
            i <= paths.len(),
            dv == paths.deep_view(),
            comps.len() == i,
            forall|j: int| 0 <= j < i ==> (#[trigger] comps@[j]).deep_view() == dv[j],
        decreases paths.len() - i,
    {
        comps.push(components_chars(&paths[i]));
        i = i + 1;
    }
    let mut r: Vec<usize> = Vec::new();
    let mut i: usize = 0;
    while i < comps.len()
        invariant
            i <= comps.len(),
            comps.len() == dv.len(),
            dv == paths.deep_view(),
            forall|j: int| 0 <= j < comps.len() ==> (#[trigger] comps@[j]).deep_view() == dv[j],
            forall|k: int| 0 <= k < r.len() ==> (#[trigger] r@[k]) < i && is_audio_path(dv[r@[k] as int]),
            forall|j: int| 0 <= j < i && is_audio_path(#[trigger] dv[j]) ==> r@.contains(j as usize),
            forall|k1: int, k2: int|
                0 <= k1 < k2 < r.len() ==> path_before(dv, #[trigger] r@[k1] as int, #[trigger] r@[k2] as int),
        decreases comps.len() - i,
    {
        let n = comps[i].len();
        let audio = n > 0 && is_audio_name(&comps[i][n - 1]);
        proof {
            assert(comps@[i as int].deep_view() == dv[i as int]);
            if n > 0 {
                assert(dv[i as int].last() =~= comps@[i as int]@[n - 1]@);
            }
        }
        assert(audio == is_audio_path(dv[i as int]));
        if audio {
            let mut k: usize = 0;
            while k < r.len()
                invariant
                    k <= r.len(),
                    i < comps.len(),
                    comps.len() == dv.len(),
                    forall|j: int| 0 <= j < comps.len() ==> (#[trigger] comps@[j]).deep_view() == dv[j],
                    forall|q: int| 0 <= q < r.len() ==> (#[trigger] r@[q]) < i,
                    forall|m: int| 0 <= m < k ==> path_before(dv, #[trigger] r@[m] as int, i as int),
                ensures
                    k <= r.len(),
                    forall|m: int| 0 <= m < k ==> path_before(dv, #[trigger] r@[m] as int, i as int),
                    k < r.len() ==> !path_before(dv, r@[k as int] as int, i as int),
                decreases r.len() - k,
            {
                let c = path_order_of(&comps[r[k]], &comps[i]);
                if c > 0 {
                    break;
                }
                assert(r@[k as int] < i);
                k = k + 1;
            }
            let ghost old_r = r@;
            r.insert(k, i);
            proof {
                old_r.insert_ensures(k as int, i);
                if k < old_r.len() {
                    lemma_before_total(dv, old_r[k as int] as int, i as int);
                }
                assert forall|k1: int, k2: int| 0 <= k1 < k2 < r.len() implies path_before(
                    dv,
                    #[trigger] r@[k1] as int,
                    #[trigger] r@[k2] as int,
                ) by {
                    if k2 < k {
                        assert(r@[k1] == old_r[k1] && r@[k2] == old_r[k2]);
                    } else if k2 == k {
                        assert(r@[k1] == old_r[k1]);
                    } else if k1 < k {
                        assert(r@[k1] == old_r[k1] && r@[k2] == old_r[k2 - 1]);
                    } else if k1 == k {
                        assert(r@[k2] == old_r[k2 - 1]);
                        if k2 - 1 > k {
                            assert(path_before(dv, old_r[k as int] as int, old_r[k2 - 1] as int));
                            lemma_before_trans(dv, i as int, old_r[k as int] as int, old_r[k2 - 1] as int);
                        }
                    } else {
                        assert(r@[k1] == old_r[k1 - 1] && r@[k2] == old_r[k2 - 1]);
                    }
                }
                assert forall|q: int| 0 <= q < r.len() implies (#[trigger] r@[q]) < i + 1 && is_audio_path(
                    dv[r@[q] as int],
                ) by {
                    if q < k {
                        assert(r@[q] == old_r[q]);
                    } else if q > k {
                        assert(r@[q] == old_r[q - 1]);
                    }
                }
                assert forall|j: int| 0 <= j < i + 1 && is_audio_path(#[trigger] dv[j]) implies r@.contains(
                    j as usize,
                ) by {
                    if j == i {
                        assert(r@[k as int] == i);
                    } else {
                        assert(old_r.contains(j as usize));
                        let idx = choose|idx: int| 0 <= idx < old_r.len() && old_r[idx] == j as usize;
                        if idx < k {
                            assert(r@[idx] == old_r[idx]);
                        } else {
                            assert(r@[idx + 1] == old_r[idx]);
                        }
                    }
                }
            }
        }
        i = i + 1;
    }
    r
}

/// A text comes before every longer text that starts with it, and where two
/// texts first differ, the one with the smaller character comes first.
pub proof fn lemma_text_order_first_difference(a: Seq<char>, b: Seq<char>, k: int)
    requires
        0 <= k <= a.len(),
        k <= b.len(),
        forall|i: int| 0 <= i < k ==> a[i] == b[i],
        (k == a.len() && k < b.len()) || (k < a.len() && k < b.len() && a[k] < b[k]),
    ensures
        text_order(a, b) == -1,
        text_order(b, a) == 1,
    decreases k,
{
    if k > 0 {
        lemma_text_order_first_difference(a.drop_first(), b.drop_first(), k - 1);
    }
    lemma_text_order(a, b);
}

/// A path comes before every longer path that starts with it, and where
/// two paths first differ, the one with the smaller component comes first.
pub proof fn lemma_path_order_first_difference(a: Seq<Seq<char>>, b: Seq<Seq<char>>, k: int)
    requires
        0 <= k <= a.len(),
        k <= b.len(),
        forall|i: int| 0 <= i < k ==> a[i] == b[i],
        (k == a.len() && k < b.len()) || (k < a.len() && k < b.len() && text_order(a[k], b[k]) < 0),
    ensures
        path_order(a, b) == -1,
        path_order(b, a) == 1,
    decreases k,
{
    if k > 0 {
        lemma_text_order(a[0], b[0]);
        assert(text_order(a[0], a[0]) == 0) by {
            lemma_text_order(a[0], a[0]);
        }
        lemma_path_order_first_difference(a.drop_first(), b.drop_first(), k - 1);
    } else if k < a.len() {
        lemma_text_order(a[0], b[0]);
    }
    lemma_path_order(a, b);
}

proof fn lemma_last_index_at(s: Seq<char>, c: char, k: int)
    requires
        0 <= k < s.len(),
        s[k] == c,
        forall|j: int| k < j < s.len() ==> s[j] != c,
    ensures
        last_index_of(s, c) == k,
    decreases s.len(),
{
    if k < s.len() - 1 {
        lemma_last_index_at(s.drop_last(), c, k);
    }
}

proof fn lemma_last_index_none(s: Seq<char>, c: char)
    requires
        forall|j: int| 0 <= j < s.len() ==> s[j] != c,
    ensures
        last_index_of(s, c) == -1,
    decreases s.len(),
{
    if s.len() > 0 {
        lemma_last_index_none(s.drop_last(), c);
    }
}

/// The extension of a file name is what follows its last dot when
/// something other than a single dot precedes that dot; a name without a
/// dot, or whose only dot is its first character, has none.
pub proof fn lemma_name_ext(b: Seq<char>, e: Seq<char>)
    requires
        forall|i: int| 0 <= i < e.len() ==> e[i] != '.',
    ensures
        b.len() > 0 && !(b == seq!['.'] && e.len() == 0) ==> name_ext(b + seq!['.'] + e) == Some(e),
        b.len() == 0 ==> name_ext(seq!['.'] + e) is None,
        name_ext(e) is None,
{
    let n = b + seq!['.'] + e;
    assert forall|j: int| b.len() < j < n.len() implies n[j] != '.' by {
        assert(n[j] == e[j - b.len() - 1]);
    }
    lemma_last_index_at(n, '.', b.len() as int);
    assert(n.skip(b.len() as int + 1) =~= e);
    if b.len() > 0 && n == seq!['.', '.'] {
        assert(b == seq!['.'] && e.len() == 0) by {
            assert(b[0] == n[0]);
            assert(b =~= seq!['.']);
        }
    }
    if b.len() == 0 {
        assert(n =~= seq!['.'] + e);
    }
    lemma_last_index_none(e, '.');
}

} // verus!
