//! Character-level text operations with their mathematical models.
//!
//! Text is handled as `Vec<char>` whose view is the `Seq<char>` of its
//! characters. Each operation mirrors the `str` method of the same intent
//! (`contains`, `starts_with`, `trim`, `replacen`, `replace`, `lines`, ...)
//! and states its result exactly over the sequences.

use vstd::prelude::*;
use vstd::std_specs::iter::IteratorSpec;

verus! {

// ---------------------------------------------------------------------------
// Models
// ---------------------------------------------------------------------------

/// The Unicode `White_Space` property, which `char::is_whitespace` tests.
pub open spec fn is_ws(c: char) -> bool {
    let u = c as u32;
    ||| 0x9 <= u <= 0xD
    ||| u == 0x20
    ||| u == 0x85
    ||| u == 0xA0
    ||| u == 0x1680
    ||| 0x2000 <= u <= 0x200A
    ||| u == 0x2028
    ||| u == 0x2029
    ||| u == 0x202F
    ||| u == 0x205F
    ||| u == 0x3000
}

/// `p` occurs in `s` at position `i`.
pub open spec fn match_at(s: Seq<char>, p: Seq<char>, i: int) -> bool {
    0 <= i && i + p.len() <= s.len() && s.subrange(i, i + p.len()) == p
}

/// The first position at or after `i` where `p` occurs in `s`.
pub open spec fn find_from(s: Seq<char>, p: Seq<char>, i: int) -> Option<int>
    decreases s.len() + 1 - i,
{
    if i < 0 || i + p.len() > s.len() {
        None
    } else if match_at(s, p, i) {
        Some(i)
    } else {
        find_from(s, p, i + 1)
    }
}

/// The first position where `p` occurs in `s` (`str::find`).
pub open spec fn find(s: Seq<char>, p: Seq<char>) -> Option<int> {
    find_from(s, p, 0)
}

/// `str::contains`.
pub open spec fn contains(s: Seq<char>, p: Seq<char>) -> bool {
    find(s, p) is Some
}

/// `str::starts_with`.
pub open spec fn starts_with(s: Seq<char>, p: Seq<char>) -> bool {
    match_at(s, p, 0)
}

/// `str::ends_with`.
pub open spec fn ends_with(s: Seq<char>, p: Seq<char>) -> bool {
    match_at(s, p, s.len() - p.len())
}

/// `s.replacen(p, r, 1)`: the first occurrence of `p` replaced by `r`.
pub open spec fn replace_first(s: Seq<char>, p: Seq<char>, r: Seq<char>) -> Seq<char> {
    match find(s, p) {
        Some(k) => s.subrange(0, k) + r + s.subrange(k + p.len(), s.len() as int),
        None => s,
    }
}

/// Every occurrence of `p` in `s` from position `i` on, left to right and
/// without overlap, replaced by `r` (for a non-empty `p`).
pub open spec fn replace_from(s: Seq<char>, p: Seq<char>, r: Seq<char>, i: int) -> Seq<char>
    decreases s.len() - i,
{
    if i < 0 || i > s.len() || p.len() == 0 {
        s.subrange(0, 0)
    } else {
        proof {
            lemma_find_from(s, p, i);
        }
        match find_from(s, p, i) {
            Some(k) => s.subrange(i, k) + r + replace_from(s, p, r, k + p.len()),
            None => s.subrange(i, s.len() as int),
        }
    }
}

/// `str::replace` with a non-empty pattern.
pub open spec fn replace_all(s: Seq<char>, p: Seq<char>, r: Seq<char>) -> Seq<char> {
    replace_from(s, p, r, 0)
}

/// The end of the run of whitespace that starts at `i`.
pub open spec fn ws_run(s: Seq<char>, i: int) -> int
    decreases s.len() - i,
{
    if 0 <= i < s.len() && is_ws(s[i]) {
        ws_run(s, i + 1)
    } else {
        i
    }
}

/// The start of the run of whitespace that ends at `j`.
pub open spec fn ws_run_back(s: Seq<char>, j: int) -> int
    decreases j,
{
    if 0 < j <= s.len() && is_ws(s[j - 1]) {
        ws_run_back(s, j - 1)
    } else {
        j
    }
}

/// Where `trim` starts: the number of leading whitespace characters.
pub open spec fn trim_lo(s: Seq<char>) -> int {
    ws_run(s, 0)
}

/// Where `trim` ends.
pub open spec fn trim_hi(s: Seq<char>) -> int {
    let lo = trim_lo(s);
    if lo == s.len() {
        lo
    } else {
        ws_run_back(s, s.len() as int)
    }
}

/// `str::trim_start`.
pub open spec fn trim_start(s: Seq<char>) -> Seq<char> {
    s.subrange(trim_lo(s), s.len() as int)
}

/// `str::trim`.
pub open spec fn trim(s: Seq<char>) -> Seq<char> {
    s.subrange(trim_lo(s), trim_hi(s))
}

/// The whitespace that `trim_start` removes.
pub open spec fn indent(s: Seq<char>) -> Seq<char> {
    s.subrange(0, trim_lo(s))
}

/// `strip_suffix('\r')` where it applies.
pub open spec fn strip_cr(s: Seq<char>) -> Seq<char> {
    if s.len() > 0 && s.last() == '\r' {
        s.drop_last()
    } else {
        s
    }
}

/// The lines of `s` from position `i` on, as `str::lines` yields them: split at
/// `'\n'`, a `'\r'` before the `'\n'` removed, no empty line after a final
/// `'\n'`.
pub open spec fn lines_from(s: Seq<char>, i: int) -> Seq<Seq<char>>
    decreases s.len() - i,
{
    if i < 0 || i >= s.len() {
        Seq::empty()
    } else {
        proof {
            lemma_find_from(s, seq!['\n'], i);
        }
        match find_from(s, seq!['\n'], i) {
            Some(k) => seq![strip_cr(s.subrange(i, k))] + lines_from(s, k + 1),
            None => seq![s.subrange(i, s.len() as int)],
        }
    }
}

/// `str::lines`.
pub open spec fn lines_of(s: Seq<char>) -> Seq<Seq<char>> {
    lines_from(s, 0)
}

/// The character sequences held by a vector of character vectors.
pub open spec fn view_lines(ls: Seq<Vec<char>>) -> Seq<Seq<char>> {
    ls.map_values(|v: Vec<char>| v@)
}

/// `parts.join(sep)`.
pub open spec fn join(parts: Seq<Seq<char>>, sep: Seq<char>) -> Seq<char>
    decreases parts.len(),
{
    if parts.len() == 0 {
        Seq::empty()
    } else if parts.len() == 1 {
        parts[0]
    } else {
        join(parts.drop_last(), sep) + sep + parts.last()
    }
}


/// Where part `k` of `parts.join(sep)` starts, for a one-character `sep`.
pub open spec fn part_start(parts: Seq<Seq<char>>, k: int) -> int
    decreases k,
{
    if k <= 0 {
        0
    } else {
        part_start(parts, k - 1) + parts[k - 1].len() + 1
    }
}

/// A text with no newline in it.
pub open spec fn no_newline(s: Seq<char>) -> bool {
    forall|i: int| 0 <= i < s.len() ==> s[i] != '\n'
}

/// A text that does not end with a carriage return.
pub open spec fn no_trailing_cr(s: Seq<char>) -> bool {
    s.len() == 0 || s.last() != '\r'
}

// ---------------------------------------------------------------------------
// Lemmas
// ---------------------------------------------------------------------------

/// The layout of `parts.join("\n")`: each part at its start, a newline after
/// each part but the last.
pub open spec fn join_layout(parts: Seq<Seq<char>>, s: Seq<char>) -> bool {
    &&& s.len() == part_start(parts, parts.len() - 1) + parts.last().len()
    &&& forall|k: int, j: int|
        0 <= k < parts.len() && 0 <= j < parts[k].len() ==> s[part_start(parts, k) + j]
            == #[trigger] parts[k][j]
    &&& forall|k: int|
        0 <= k < parts.len() - 1 ==> s[#[trigger] part_start(parts, k) + parts[k].len()] == '\n'
}

pub proof fn lemma_join_layout(parts: Seq<Seq<char>>)
    requires
        parts.len() >= 1,
    ensures
        join_layout(parts, join(parts, seq!['\n'])),
    decreases parts.len(),
{
    let s = join(parts, seq!['\n']);
    if parts.len() == 1 {
        assert(s == parts[0]);
    } else {
        let n = parts.len();
        let init = parts.drop_last();
        lemma_join_layout(init);
        let t = join(init, seq!['\n']);
        assert(s == t + seq!['\n'] + parts.last());
        lemma_part_start_prefix(parts, n - 2);
        assert(init[n - 2] == parts[n - 2]);
        assert(part_start(parts, n - 1) == t.len() + 1);
        assert forall|k: int, j: int|
            0 <= k < n && 0 <= j < parts[k].len() implies s[part_start(parts, k) + j]
                == #[trigger] parts[k][j] by {
            if k < n - 1 {
                lemma_part_start_prefix(parts, k);
                assert(init[k] == parts[k]);
                lemma_part_start_mono(init, k, n - 2);
                assert(t[part_start(init, k) + j] == init[k][j]);
                assert(s[part_start(parts, k) + j] == t[part_start(parts, k) + j]);
            } else {
                assert(s[part_start(parts, k) + j] == parts.last()[j]);
            }
        }
        assert forall|k: int| 0 <= k < n - 1 implies s[#[trigger] part_start(parts, k) + parts[k].len()]
            == '\n' by {
            lemma_part_start_prefix(parts, k);
            assert(init[k] == parts[k]);
            if k < n - 2 {
                lemma_part_start_mono(init, k + 1, n - 2);
                assert(part_start(init, k + 1) == part_start(init, k) + init[k].len() + 1);
                assert(t.len() == part_start(init, n - 2) + init[n - 2].len());
                assert(part_start(parts, k) + parts[k].len() < t.len());
                lemma_part_start_nonneg(parts, k);
                assert(t[part_start(init, k) + init[k].len()] == '\n');
                assert(s[part_start(parts, k) + parts[k].len()] == t[part_start(parts, k) + parts[k].len()]);
            } else {
                assert(part_start(parts, k) + parts[k].len() == t.len());
            }
        }
    }
}

proof fn lemma_part_start_prefix(parts: Seq<Seq<char>>, k: int)
    requires
        parts.len() >= 1,
        0 <= k < parts.len(),
    ensures
        part_start(parts.drop_last(), k) == part_start(parts, k),
    decreases k,
{
    if k > 0 {
        lemma_part_start_prefix(parts, k - 1);
        assert(parts.drop_last()[k - 1] == parts[k - 1]);
    }
}

proof fn lemma_part_start_nonneg(parts: Seq<Seq<char>>, k: int)
    ensures
        part_start(parts, k) >= 0,
    decreases k,
{
    if k > 0 {
        lemma_part_start_nonneg(parts, k - 1);
    }
}

proof fn lemma_part_start_mono(parts: Seq<Seq<char>>, a: int, b: int)
    requires
        0 <= a <= b < parts.len(),
    ensures
        0 <= part_start(parts, a),
        part_start(parts, a) + parts[a].len() <= part_start(parts, b) + parts[b].len(),
        a < b ==> part_start(parts, a) + parts[a].len() < part_start(parts, b),
    decreases b - a,
{
    lemma_part_start_nonneg(parts, a);
    if a < b {
        lemma_part_start_mono(parts, a, b - 1);
    }
}

/// Splitting the joined lines gives the lines back, when none holds a
/// newline or ends with a carriage return and the last is not empty.
pub proof fn lemma_lines_of_join(parts: Seq<Seq<char>>)
    requires
        parts.len() >= 1,
        forall|k: int| 0 <= k < parts.len() ==> no_newline(#[trigger] parts[k]),
        forall|k: int| 0 <= k < parts.len() ==> no_trailing_cr(#[trigger] parts[k]),
        parts.last().len() > 0,
    ensures
        lines_of(join(parts, seq!['\n'])) == parts,
{
    lemma_join_layout(parts);
    lemma_lines_from_join(parts, join(parts, seq!['\n']), 0);
    assert(parts.subrange(0, parts.len() as int) =~= parts);
}

#[verifier::rlimit(40)]
proof fn lemma_lines_from_join(parts: Seq<Seq<char>>, s: Seq<char>, k: int)
    requires
        parts.len() >= 1,
        0 <= k < parts.len(),
        forall|q: int| 0 <= q < parts.len() ==> no_newline(#[trigger] parts[q]),
        forall|q: int| 0 <= q < parts.len() ==> no_trailing_cr(#[trigger] parts[q]),
        parts.last().len() > 0,
        join_layout(parts, s),
    ensures
        lines_from(s, part_start(parts, k)) == parts.subrange(k, parts.len() as int),
    decreases parts.len() - k,
{
    let n = parts.len();
    let i = part_start(parts, k);
    let e = i + parts[k].len();
    let nl = seq!['\n'];
    assert(no_newline(parts[k]));
    lemma_part_start_mono(parts, k, k);
    if k < n - 1 {
        lemma_part_start_mono(parts, k, n - 1);
        lemma_part_start_mono(parts, k + 1, n - 1);
    }
    assert(e <= s.len());
    assert(i < s.len());
    assert forall|m: int| i <= m < e implies !match_at(s, nl, m) by {
        assert(s[i + (m - i)] == parts[k][m - i]);
        assert(s.subrange(m, m + 1)[0] == s[m]);
    }
    assert forall|j: int| 0 <= j < parts[k].len() implies s.subrange(i, e)[j] == parts[k][j] by {
        assert(s[i + j] == parts[k][j]);
    }
    assert(s.subrange(i, e) =~= parts[k]);
    assert(no_trailing_cr(parts[k]));
    assert(strip_cr(parts[k]) == parts[k]);
    if k < n - 1 {
        assert(s[e] == '\n');
        assert(s.subrange(e, e + 1) =~= nl);
        lemma_find_from_skip(s, nl, i, e);
        lemma_find_from(s, nl, e);
        assert(find_from(s, nl, i) == Some(e));
        assert(part_start(parts, k + 1) == e + 1);
        lemma_lines_from_join(parts, s, k + 1);
        assert(lines_from(s, i) == seq![parts[k]] + lines_from(s, e + 1));
        assert(parts.subrange(k, n as int) =~= seq![parts[k]] + parts.subrange(k + 1, n as int));
    } else {
        assert(e == s.len());
        lemma_find_from_skip(s, nl, i, s.len() as int);
        lemma_find_from(s, nl, s.len() as int);
        assert(find_from(s, nl, i) is None);
        assert(lines_from(s, i) == seq![s.subrange(i, s.len() as int)]);
        assert(parts.subrange(k, n as int) =~= seq![parts[k]]);
    }
}

/// No line `str::lines` yields holds a newline.
pub proof fn lemma_lines_no_newline(s: Seq<char>, i: int)
    ensures
        forall|k: int| 0 <= k < lines_from(s, i).len() ==> no_newline(#[trigger] lines_from(s, i)[k]),
    decreases s.len() - i,
{
    let nl = seq!['\n'];
    if 0 <= i < s.len() {
        lemma_find_from(s, nl, i);
        match find_from(s, nl, i) {
            Some(k) => {
                lemma_lines_no_newline(s, k + 1);
                let piece = s.subrange(i, k);
                assert forall|m: int| 0 <= m < piece.len() implies piece[m] != '\n' by {
                    assert(!match_at(s, nl, i + m));
                    assert(s.subrange(i + m, i + m + 1) =~= seq![s[i + m]]);
                }
                assert(no_newline(strip_cr(piece)));
                let ls = lines_from(s, i);
                assert(ls == seq![strip_cr(piece)] + lines_from(s, k + 1));
                assert forall|q: int| 0 <= q < ls.len() implies no_newline(#[trigger] ls[q]) by {
                    if q > 0 {
                        assert(ls[q] == lines_from(s, k + 1)[q - 1]);
                    }
                }
            },
            None => {
                let piece = s.subrange(i, s.len() as int);
                assert forall|m: int| 0 <= m < piece.len() implies piece[m] != '\n' by {
                    assert(!match_at(s, nl, i + m));
                    assert(s.subrange(i + m, i + m + 1) =~= seq![s[i + m]]);
                }
            },
        }
    }
}

/// What `find_from` returns: the least match at or after `i`.
pub proof fn lemma_find_from(s: Seq<char>, p: Seq<char>, i: int)
    requires
        0 <= i,
    ensures
        match find_from(s, p, i) {
            Some(k) => i <= k && match_at(s, p, k) && forall|j: int|
                i <= j < k ==> !match_at(s, p, j),
            None => forall|j: int| i <= j ==> !match_at(s, p, j),
        },
    decreases s.len() + 1 - i,
{
    if i + p.len() > s.len() {
    } else if match_at(s, p, i) {
    } else {
        lemma_find_from(s, p, i + 1);
    }
}

/// A match found from `i` is also the one found from any earlier point with
/// no match in between.
pub proof fn lemma_find_from_skip(s: Seq<char>, p: Seq<char>, i: int, j: int)
    requires
        0 <= i <= j,
        forall|m: int| i <= m < j ==> !match_at(s, p, m),
    ensures
        find_from(s, p, i) == find_from(s, p, j),
    decreases j - i,
{
    if i < j {
        lemma_find_from_skip(s, p, i + 1, j);
        assert(!match_at(s, p, i));
        if i + p.len() > s.len() {
            lemma_find_from(s, p, j);
        }
    }
}

pub proof fn lemma_ws_run(s: Seq<char>, i: int)
    requires
        0 <= i <= s.len(),
    ensures
        i <= ws_run(s, i) <= s.len(),
        forall|k: int| i <= k < ws_run(s, i) ==> is_ws(s[k]),
        ws_run(s, i) < s.len() ==> !is_ws(s[ws_run(s, i)]),
    decreases s.len() - i,
{
    if i < s.len() && is_ws(s[i]) {
        lemma_ws_run(s, i + 1);
    }
}

pub proof fn lemma_ws_run_back(s: Seq<char>, j: int)
    requires
        0 <= j <= s.len(),
    ensures
        0 <= ws_run_back(s, j) <= j,
        forall|k: int| ws_run_back(s, j) <= k < j ==> is_ws(s[k]),
        ws_run_back(s, j) > 0 ==> !is_ws(s[ws_run_back(s, j) - 1]),
    decreases j,
{
    if 0 < j && is_ws(s[j - 1]) {
        lemma_ws_run_back(s, j - 1);
    }
}

/// The trimmed text is bounded by whitespace on both sides, starts and ends
/// with a non-whitespace character and is empty only when all of `s` is
/// whitespace.
pub proof fn lemma_trim(s: Seq<char>)
    ensures
        0 <= trim_lo(s) <= trim_hi(s) <= s.len(),
        forall|k: int| 0 <= k < trim_lo(s) ==> is_ws(s[k]),
        forall|k: int| trim_hi(s) <= k < s.len() ==> is_ws(s[k]),
        trim_lo(s) < trim_hi(s) ==> !is_ws(s[trim_lo(s)]) && !is_ws(s[trim_hi(s) - 1]),
        trim_lo(s) == trim_hi(s) ==> trim_lo(s) == s.len(),
{
    lemma_ws_run(s, 0);
    lemma_ws_run_back(s, s.len() as int);
    let lo = trim_lo(s);
    if lo < s.len() {
        let hi = ws_run_back(s, s.len() as int);
        if hi <= lo {
            assert(is_ws(s[lo]));
        }
    }
}

/// A pattern that occurs somewhere is found.
pub proof fn lemma_found(s: Seq<char>, p: Seq<char>, i: int)
    requires
        match_at(s, p, i),
    ensures
        find(s, p) matches Some(k) && k <= i && match_at(s, p, k),
{
    lemma_find_from(s, p, 0);
}

/// Replacing a found pattern by a different text changes the text.
pub proof fn lemma_replace_first_changes(t: Seq<char>, p: Seq<char>, r: Seq<char>)
    requires
        find(t, p) is Some,
        r != p,
    ensures
        replace_first(t, p, r) != t,
{
    lemma_find_from(t, p, 0);
    let k = find(t, p)->0;
    let out = replace_first(t, p, r);
    if r.len() == p.len() && out == t {
        assert forall|i: int| 0 <= i < r.len() implies r[i] == p[i] by {
            assert(out[k + i] == r[i]);
            assert(t.subrange(k, k + p.len())[i] == p[i]);
        }
        assert(r =~= p);
    }
}

/// A replacement that ends in a non-whitespace character, in a text that
/// does, leaves a text that does.
pub proof fn lemma_replace_first_last(t: Seq<char>, p: Seq<char>, r: Seq<char>)
    requires
        r.len() > 0,
        !is_ws(r.last()),
        t.len() > 0 ==> !is_ws(t.last()),
    ensures
        replace_first(t, p, r).len() > 0 ==> !is_ws(replace_first(t, p, r).last()),
{
    lemma_find_from(t, p, 0);
    match find(t, p) {
        Some(k) => {
            let tail = t.subrange(k + p.len(), t.len() as int);
            let out = t.subrange(0, k) + r + tail;
            if tail.len() > 0 {
                assert(out.last() == t.last());
            } else {
                assert(out.last() == r.last());
            }
        },
        None => {},
    }
}

// ---------------------------------------------------------------------------
// Executable operations
// ---------------------------------------------------------------------------

/// `char::is_whitespace`.
pub fn char_is_ws(c: char) -> (b: bool)
    ensures
        b == is_ws(c),
{
    let u = c as u32;
    (0x9 <= u && u <= 0xD) || u == 0x20 || u == 0x85 || u == 0xA0 || u == 0x1680 || (0x2000
        <= u && u <= 0x200A) || u == 0x2028 || u == 0x2029 || u == 0x202F || u == 0x205F || u
        == 0x3000
}

/// The characters of a string slice.
pub fn chars_of(s: &str) -> (v: Vec<char>)
    ensures
        v@ == s@,
{
    let mut v: Vec<char> = Vec::new();
    let mut it = s.chars();
    proof {
        broadcast use vstd::string::group_string_axioms;
    }
    loop
        invariant
            v@ + it.remaining() == s@,
            it.decrease() is Some,
        decreases it.decrease()->0,
    {
        let ghost before = it.remaining();
        match it.next() {
            Some(c) => {
                proof {
                    broadcast use vstd::string::group_string_axioms;
                }
                assert(before.len() > 0);
                assert(v@.push(c) + it.remaining() =~= v@ + before);
                v.push(c);
            },
            None => {
                proof {
                    broadcast use vstd::string::group_string_axioms;
                }
                assert(v@ =~= s@);
                return v;
            },
        }
    }
}

/// `String::push`.
#[verifier::external_body]
fn push_char(s: &mut String, c: char)
    ensures
        final(s)@ == old(s)@.push(c),
{
    s.push(c)
}

/// The string made of the given characters.
pub fn string_of(v: &Vec<char>) -> (s: String)
    ensures
        s@ == v@,
{
    let mut s = String::new();
    let mut i: usize = 0;
    while i < v.len()
        invariant
            i <= v.len(),
            s@ == v@.subrange(0, i as int),
        decreases v.len() - i,
    {
        push_char(&mut s, v[i]);
        i = i + 1;
        assert(s@ =~= v@.subrange(0, i as int));
    }
    assert(v@.subrange(0, v.len() as int) =~= v@);
    s
}

/// Whether `p` occurs in `s` at position `i`.
pub fn matches_at(s: &Vec<char>, p: &Vec<char>, i: usize) -> (b: bool)
    ensures
        b == match_at(s@, p@, i as int),
{
    if i > s.len() || p.len() > s.len() - i {
        return false;
    }
    let mut k: usize = 0;
    while k < p.len()
        invariant
            i + p.len() <= s.len(),
            k <= p.len(),
            forall|m: int| 0 <= m < k ==> s@[i + m] == p@[m],
        decreases p.len() - k,
    {
        if s[i + k] != p[k] {
            assert(s@.subrange(i as int, i + p.len())[k as int] != p@[k as int]);
            return false;
        }
        k = k + 1;
    }
    assert(s@.subrange(i as int, i + p.len()) =~= p@);
    true
}

/// The first position at or after `i` where `p` occurs in `s`.
pub fn find_from_exec(s: &Vec<char>, p: &Vec<char>, i: usize) -> (r: Option<usize>)
    ensures
        match r {
            Some(k) => find_from(s@, p@, i as int) == Some(k as int),
            None => find_from(s@, p@, i as int) is None,
        },
{
    if p.len() > s.len() || i > s.len() - p.len() {
        return None;
    }
    let last = s.len() - p.len();
    let mut j: usize = i;
    while j <= last
        invariant
            i <= j,
            last + p.len() == s.len(),
            find_from(s@, p@, i as int) == find_from(s@, p@, j as int),
        decreases last + 1 - j,
    {
        if matches_at(s, p, j) {
            return Some(j);
        }
        if j == last {
            assert(find_from(s@, p@, j as int + 1) is None);
            return None;
        }
        j = j + 1;
    }
    None
}

/// `str::find`.
pub fn find_exec(s: &Vec<char>, p: &Vec<char>) -> (r: Option<usize>)
    ensures
        match r {
            Some(k) => find(s@, p@) == Some(k as int),
            None => find(s@, p@) is None,
        },
{
    find_from_exec(s, p, 0)
}

/// `str::contains`.
pub fn contains_exec(s: &Vec<char>, p: &Vec<char>) -> (b: bool)
    ensures
        b == contains(s@, p@),
{
    find_exec(s, p).is_some()
}

/// `str::contains` with a string-slice pattern.
pub fn contains_str(s: &Vec<char>, p: &str) -> (b: bool)
    ensures
        b == contains(s@, p@),
{
    let pv = chars_of(p);
    contains_exec(s, &pv)
}

/// `str::starts_with` with a string-slice pattern.
pub fn begins(s: &Vec<char>, p: &str) -> (b: bool)
    ensures
        b == starts_with(s@, p@),
{
    let pv = chars_of(p);
    matches_at(s, &pv, 0)
}

/// `str::ends_with` with a string-slice pattern.
pub fn ends(s: &Vec<char>, p: &str) -> (b: bool)
    ensures
        b == ends_with(s@, p@),
{
    let pv = chars_of(p);
    if pv.len() > s.len() {
        false
    } else {
        matches_at(s, &pv, s.len() - pv.len())
    }
}

/// Whether two character sequences are equal.
pub fn same(a: &Vec<char>, b: &Vec<char>) -> (r: bool)
    ensures
        r == (a@ == b@),
{
    if a.len() != b.len() {
        return false;
    }
    let r = matches_at(a, b, 0);
    assert(a@.subrange(0, b@.len() as int) =~= a@);
    r
}

/// Whether a character sequence equals a string slice.
pub fn same_str(a: &Vec<char>, b: &str) -> (r: bool)
    ensures
        r == (a@ == b@),
{
    let bv = chars_of(b);
    same(a, &bv)
}

/// The characters `s[lo..hi]`.
pub fn slice(s: &Vec<char>, lo: usize, hi: usize) -> (r: Vec<char>)
    requires
        lo <= hi <= s.len(),
    ensures
        r@ == s@.subrange(lo as int, hi as int),
{
    let mut r: Vec<char> = Vec::new();
    let mut k: usize = lo;
    while k < hi
        invariant
            lo <= k <= hi <= s.len(),
            r@ == s@.subrange(lo as int, k as int),
        decreases hi - k,
    {
        r.push(s[k]);
        k = k + 1;
        assert(r@ =~= s@.subrange(lo as int, k as int));
    }
    r
}

/// Appends the characters of `b` to `a`.
pub fn extend(a: &mut Vec<char>, b: &Vec<char>)
    ensures
        final(a)@ == old(a)@ + b@,
{
    let ghost a0 = a@;
    let mut k: usize = 0;
    while k < b.len()
        invariant
            k <= b.len(),
            a@ == a0 + b@.subrange(0, k as int),
        decreases b.len() - k,
    {
        a.push(b[k]);
        k = k + 1;
        assert(a@ =~= a0 + b@.subrange(0, k as int));
    }
    assert(b@.subrange(0, b.len() as int) =~= b@);
}

/// Appends the characters of a string slice to `a`.
pub fn extend_str(a: &mut Vec<char>, b: &str)
    ensures
        final(a)@ == old(a)@ + b@,
{
    let bv = chars_of(b);
    extend(a, &bv);
}

/// `s.replacen(p, r, 1)`.
pub fn replace_first_exec(s: &Vec<char>, p: &Vec<char>, r: &Vec<char>) -> (out: Vec<char>)
    ensures
        out@ == replace_first(s@, p@, r@),
{
    match find_exec(s, p) {
        Some(k) => {
            proof {
                lemma_find_from(s@, p@, 0);
            }
            let mut out = slice(s, 0, k);
            extend(&mut out, r);
            let rest = slice(s, k + p.len(), s.len());
            extend(&mut out, &rest);
            out
        },
        None => s.clone(),
    }
}

/// `s.replacen(p, r, 1)` with string-slice arguments.
pub fn replace_first_str(s: &Vec<char>, p: &str, r: &str) -> (out: Vec<char>)
    ensures
        out@ == replace_first(s@, p@, r@),
{
    let pv = chars_of(p);
    let rv = chars_of(r);
    replace_first_exec(s, &pv, &rv)
}

/// `s.replace(p, r)` for a non-empty pattern.
pub fn replace_all_exec(s: &Vec<char>, p: &Vec<char>, r: &Vec<char>) -> (out: Vec<char>)
    requires
        p@.len() > 0,
    ensures
        out@ == replace_all(s@, p@, r@),
{
    let mut out: Vec<char> = Vec::new();
    let mut i: usize = 0;
    loop
        invariant
            i <= s.len(),
            p@.len() > 0,
            out@ + replace_from(s@, p@, r@, i as int) == replace_all(s@, p@, r@),
        decreases s.len() - i,
    {
        match find_from_exec(s, p, i) {
            Some(k) => {
                proof {
                    lemma_find_from(s@, p@, i as int);
                }
                let piece = slice(s, i, k);
                let ghost o0 = out@;
                extend(&mut out, &piece);
                extend(&mut out, r);
                assert(out@ + replace_from(s@, p@, r@, k + p@.len()) =~= o0 + replace_from(
                    s@,
                    p@,
                    r@,
                    i as int,
                ));
                i = k + p.len();
            },
            None => {
                let piece = slice(s, i, s.len());
                extend(&mut out, &piece);
                return out;
            },
        }
    }
}

/// `s.replace(p, r)` with string-slice arguments and a non-empty pattern.
pub fn replace_all_str(s: &Vec<char>, p: &str, r: &str) -> (out: Vec<char>)
    requires
        p@.len() > 0,
    ensures
        out@ == replace_all(s@, p@, r@),
{
    let pv = chars_of(p);
    let rv = chars_of(r);
    replace_all_exec(s, &pv, &rv)
}

/// Where `trim` starts and ends.
pub fn trim_bounds(s: &Vec<char>) -> (r: (usize, usize))
    ensures
        r.0 == trim_lo(s@),
        r.1 == trim_hi(s@),
{
    let mut lo: usize = 0;
    while lo < s.len() && char_is_ws(s[lo])
        invariant
            lo <= s.len(),
            ws_run(s@, 0) == ws_run(s@, lo as int),
        decreases s.len() - lo,
    {
        lo = lo + 1;
    }
    if lo == s.len() {
        return (lo, lo);
    }
    let mut hi: usize = s.len();
    while hi > 0 && char_is_ws(s[hi - 1])
        invariant
            hi <= s.len(),
            ws_run_back(s@, s.len() as int) == ws_run_back(s@, hi as int),
        decreases hi,
    {
        hi = hi - 1;
    }
    (lo, hi)
}

/// `str::trim`.
pub fn trim_exec(s: &Vec<char>) -> (t: Vec<char>)
    ensures
        t@ == trim(s@),
{
    proof {
        lemma_trim(s@);
    }
    let (lo, hi) = trim_bounds(s);
    slice(s, lo, hi)
}

/// The whitespace that `trim_start` removes.
pub fn indent_exec(s: &Vec<char>) -> (t: Vec<char>)
    ensures
        t@ == indent(s@),
{
    proof {
        lemma_trim(s@);
    }
    let (lo, _) = trim_bounds(s);
    slice(s, 0, lo)
}

/// `str::lines`.
pub fn lines_exec(s: &Vec<char>) -> (ls: Vec<Vec<char>>)
    ensures
        view_lines(ls@) == lines_of(s@),
{
    let mut ls: Vec<Vec<char>> = Vec::new();
    let mut i: usize = 0;
    let nl = chars_of("\n");
    proof {
        reveal_strlit("\n");
        assert(nl@ =~= seq!['\n']);
    }
    while i < s.len()
        invariant
            i <= s.len(),
            nl@ == seq!['\n'],
            view_lines(ls@) + lines_from(s@, i as int) == lines_of(s@),
        decreases s.len() - i,
    {
        match find_from_exec(s, &nl, i) {
            Some(k) => {
                proof {
                    lemma_find_from(s@, nl@, i as int);
                }
                let mut piece = slice(s, i, k);
                if piece.len() > 0 && piece[piece.len() - 1] == '\r' {
                    piece.pop();
                    assert(piece@ =~= s@.subrange(i as int, k as int).drop_last());
                }
                let ghost l0 = view_lines(ls@);
                ls.push(piece);
                assert(view_lines(ls@) =~= l0.push(strip_cr(s@.subrange(i as int, k as int))));
                assert(view_lines(ls@) + lines_from(s@, k + 1) =~= l0 + lines_from(s@, i as int));
                i = k + 1;
            },
            None => {
                let piece = slice(s, i, s.len());
                let ghost l0 = view_lines(ls@);
                ls.push(piece);
                assert(view_lines(ls@) =~= l0 + lines_from(s@, i as int));
                return ls;
            },
        }
    }
    assert(view_lines(ls@) =~= view_lines(ls@) + lines_from(s@, i as int));
    ls
}


// ---------------------------------------------------------------------------
// Decimal numbers
// ---------------------------------------------------------------------------

/// The decimal digit of `d` (`0 <= d < 10`).
pub open spec fn digit(d: int) -> char {
    if d == 0 {
        '0'
    } else if d == 1 {
        '1'
    } else if d == 2 {
        '2'
    } else if d == 3 {
        '3'
    } else if d == 4 {
        '4'
    } else if d == 5 {
        '5'
    } else if d == 6 {
        '6'
    } else if d == 7 {
        '7'
    } else if d == 8 {
        '8'
    } else {
        '9'
    }
}

/// The decimal notation of `n`, as `Display` writes an unsigned integer: no
/// sign, no leading zero.
pub open spec fn decimal(n: nat) -> Seq<char>
    decreases n,
{
    if n < 10 {
        seq![digit(n as int)]
    } else {
        decimal(n / 10).push(digit((n % 10) as int))
    }
}

/// `s` padded on the left with zeros to at least `width` characters, as the
/// `{:0width}` format writes a non-negative integer.
pub open spec fn zero_pad(s: Seq<char>, width: nat) -> Seq<char> {
    if s.len() < width {
        Seq::new((width - s.len()) as nat, |i: int| '0') + s
    } else {
        s
    }
}

fn digit_exec(d: u128) -> (c: char)
    requires
        d < 10,
    ensures
        c == digit(d as int),
{
    if d == 0 {
        '0'
    } else if d == 1 {
        '1'
    } else if d == 2 {
        '2'
    } else if d == 3 {
        '3'
    } else if d == 4 {
        '4'
    } else if d == 5 {
        '5'
    } else if d == 6 {
        '6'
    } else if d == 7 {
        '7'
    } else if d == 8 {
        '8'
    } else {
        '9'
    }
}

/// The decimal notation of `n`.
pub fn decimal_exec(n: u128) -> (v: Vec<char>)
    ensures
        v@ == decimal(n as nat),
    decreases n,
{
    if n < 10 {
        let mut v = Vec::new();
        v.push(digit_exec(n));
        assert(v@ =~= seq![digit(n as int)]);
        v
    } else {
        let mut v = decimal_exec(n / 10);
        v.push(digit_exec(n % 10));
        v
    }
}

/// The decimal notation of `n`, padded with zeros to `width` characters.
pub fn zero_pad_exec(n: u128, width: usize) -> (v: Vec<char>)
    ensures
        v@ == zero_pad(decimal(n as nat), width as nat),
{
    let d = decimal_exec(n);
    if d.len() < width {
        let mut v: Vec<char> = Vec::new();
        let k = width - d.len();
        while v.len() < k
            invariant
                v.len() <= k,
                forall|i: int| 0 <= i < v.len() ==> v@[i] == '0',
            decreases k - v.len(),
        {
            v.push('0');
        }
        assert(v@ =~= Seq::new((width - d@.len()) as nat, |i: int| '0'));
        extend(&mut v, &d);
        v
    } else {
        d
    }
}

} // verus!
