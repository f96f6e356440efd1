//! One fault per mutant: every mutant the engine generates changes the line
//! it stands for.

use vstd::prelude::*;
use crate::model::Operator;
use crate::ops::{
    attacker_for, flip_of, flip_pick, generated_hits, hits_upto, is_line_op, op_core, op_line,
    scan_hits, swapped_seed, trim_end_matches, trim_start_matches, COMPARISON_PATTERN,
    PDA_SEED_PATTERN, REALLOC_PATTERN, REALLOC_ZERO_PATTERN,
};
use crate::pattern::{hit_in, regex_find, regex_find_all, regex_removed, Hit};
use crate::text::{
    indent, contains, ends_with, find, is_ws, lemma_find_from, lemma_found,
    lemma_replace_first_changes, lemma_replace_first_last, lemma_trim, lines_of, starts_with, trim, trim_hi, trim_lo,
};

verus! {

// ---------------------------------------------------------------------------
// Byte lengths
// ---------------------------------------------------------------------------

/// Putting the indentation in front of a text other than the trimmed line
/// never gives the line back, provided the text ends in a non-whitespace
/// character or is shorter than the trimmed line.
pub proof fn lemma_indent_differs(line: Seq<char>, x: Seq<char>)
    requires
        x != trim(line),
        x.len() == 0 || !is_ws(x.last()) || x.len() < trim(line).len(),
    ensures
        indent(line) + x != line,
{
    lemma_trim(line);
    let lo = trim_lo(line);
    let hi = trim_hi(line);
    let len = line.len() as int;
    if indent(line) + x == line {
        let whole = indent(line) + x;
        assert(x =~= line.subrange(lo, len)) by {
            assert forall|i: int| 0 <= i < x.len() implies x[i] == line[lo + i] by {
                assert(whole[lo + i] == x[i]);
            }
        }
        if lo == hi {
            assert(x.len() == 0);
            assert(x =~= trim(line));
        } else if hi == len {
            assert(x =~= trim(line));
        } else {
            assert(x.last() == line[len - 1]);
        }
    }
}

// ---------------------------------------------------------------------------
// Per-rule facts
// ---------------------------------------------------------------------------

pub open spec fn count_char(s: Seq<char>, c: char) -> nat
    decreases s.len(),
{
    if s.len() == 0 {
        0
    } else {
        count_char(s.drop_last(), c) + (if s.last() == c {
            1nat
        } else {
            0nat
        })
    }
}

proof fn lemma_count_concat(a: Seq<char>, b: Seq<char>, c: char)
    ensures
        count_char(a + b, c) == count_char(a, c) + count_char(b, c),
    decreases b.len(),
{
    if b.len() > 0 {
        lemma_count_concat(a, b.drop_last(), c);
        assert((a + b).drop_last() =~= a + b.drop_last());
    } else {
        assert(a + b =~= a);
    }
}

proof fn lemma_count_tsm(s: Seq<char>)
    ensures
        count_char(trim_start_matches(s, "b\""@), '_') == count_char(s, '_'),
    decreases s.len(),
{
    reveal_strlit("b\"");
    let p = "b\""@;
    if p.len() > 0 && starts_with(s, p) {
        let rest = s.subrange(p.len() as int, s.len() as int);
        assert(s =~= p + rest);
        lemma_count_concat(p, rest, '_');
        assert(count_char(p, '_') == 0) by {
            reveal_with_fuel(count_char, 3);
            assert(p =~= seq!['b', '"']);
        }
        lemma_count_tsm(rest);
    }
}

proof fn lemma_count_tem(s: Seq<char>)
    ensures
        count_char(trim_end_matches(s, "\""@), '_') == count_char(s, '_'),
    decreases s.len(),
{
    reveal_strlit("\"");
    let p = "\""@;
    if p.len() > 0 && ends_with(s, p) {
        let rest = s.subrange(0, s.len() - p.len());
        assert(s =~= rest + p);
        lemma_count_concat(rest, p, '_');
        assert(count_char(p, '_') == 0) by {
            reveal_with_fuel(count_char, 2);
            assert(p =~= seq!['"']);
        }
        lemma_count_tem(rest);
    }
}

/// The swapped seed has three more underscores than the seed, so it is never
/// the seed itself.
proof fn lemma_swapped_seed_differs(seed: Seq<char>)
    ensures
        swapped_seed(seed) != seed,
{
    reveal_strlit("b\"__mut_");
    reveal_strlit("\"");
    let inner = trim_end_matches(trim_start_matches(seed, "b\""@), "\""@);
    lemma_count_tsm(seed);
    lemma_count_tem(trim_start_matches(seed, "b\""@));
    let head = "b\"__mut_"@;
    lemma_count_concat(head, inner, '_');
    lemma_count_concat(head + inner, "\""@, '_');
    assert(count_char("\""@, '_') == 0) by {
        reveal_with_fuel(count_char, 2);
        assert("\""@ =~= seq!['"']);
    }
    assert(count_char(head, '_') == 3) by {
        reveal_with_fuel(count_char, 9);
        assert(head =~= seq!['b', '"', '_', '_', 'm', 'u', 't', '_']);
    }
}

/// A match that stands in `t` is found in `t`.
proof fn lemma_hit_found(t: Seq<char>, pre: Seq<char>, mat: Seq<char>)
    requires
        hit_in(t, pre, mat),
    ensures
        find(t, mat) is Some,
{
    assert(t.subrange(pre.len() as int, (pre.len() + mat.len()) as int) =~= mat) by {
        assert forall|i: int| 0 <= i < mat.len() implies t[pre.len() + i] == mat[i] by {
            assert(t.subrange(0, pre.len() + mat.len() as int)[pre.len() + i] == (pre + mat)[pre.len()
                + i]);
        }
    }
    lemma_found(t, mat, pre.len() as int);
}

/// Removing a match that stands in `t` and changes it leaves a shorter text.
proof fn lemma_removed_shorter(pattern: Seq<char>, t: Seq<char>)
    requires
        regex_removed(pattern, t) != t,
    ensures
        regex_removed(pattern, t).len() < t.len(),
{
    let (pre, mat) = regex_find(pattern, t)->0;
    let rest = t.subrange(pre.len() + mat.len() as int, t.len() as int);
    assert(t =~= pre + mat + rest) by {
        assert(t =~= t.subrange(0, pre.len() + mat.len() as int) + rest);
    }
    if mat.len() == 0 {
        assert(pre + mat =~= pre);
    }
}

/// A text that contains a non-empty pattern is not empty.
proof fn lemma_contains_nonempty(t: Seq<char>, p: Seq<char>)
    requires
        contains(t, p),
        p.len() > 0,
    ensures
        t.len() > 0,
{
    lemma_find_from(t, p, 0);
}

/// The trimmed line ends in a non-whitespace character.
proof fn lemma_trim_last(line: Seq<char>)
    ensures
        trim(line).len() > 0 ==> !is_ws(trim(line).last()),
{
    lemma_trim(line);
    if trim(line).len() > 0 {
        assert(trim(line).last() == line[trim_hi(line) - 1]);
    }
}

/// What every rewriting rule makes of a trimmed line differs from it, and
/// either ends in a non-whitespace character or is shorter.
proof fn lemma_core_changes(op: Operator, t: Seq<char>)
    requires
        op_core(op, t) is Some,
        op != Operator::UncheckedMath,
        t.len() > 0 ==> !is_ws(t.last()),
    ensures
        op_core(op, t)->0 != t,
        op_core(op, t)->0.len() == 0 || !is_ws(op_core(op, t)->0.last()) || op_core(op, t)->0.len()
            < t.len(),
{
    let x = op_core(op, t)->0;
    match op {
        Operator::PdaSeedSwap => {
            reveal_strlit("seeds =");
            reveal_strlit("seeds=");
            reveal_strlit("\"");
            reveal_strlit("b\"__mut_");
            assert(contains(t, "seeds ="@) || contains(t, "seeds="@));
            if contains(t, "seeds ="@) {
                lemma_contains_nonempty(t, "seeds ="@);
            } else {
                lemma_contains_nonempty(t, "seeds="@);
            }
            assert(t.len() > 0);
            let (pre, seed) = regex_find(PDA_SEED_PATTERN@, t)->0;
            lemma_hit_found(t, pre, seed);
            lemma_swapped_seed_differs(seed);
            lemma_replace_first_changes(t, seed, swapped_seed(seed));
            let sw = swapped_seed(seed);
            assert(sw.last() == '"');
            lemma_replace_first_last(t, seed, sw);
        },
        Operator::BumpMismatch => {
            reveal_strlit("bump");
            reveal_strlit("bump + 1");
            lemma_contains_nonempty(t, "bump"@);
            lemma_replace_first_last(t, "bump"@, "bump + 1"@);
        },
        Operator::CpiTargetSwap => {
            reveal_strlit("::cpi::");
            reveal_strlit("_mutant::cpi::");
            lemma_contains_nonempty(t, "::cpi::"@);
            lemma_replace_first_last(t, "::cpi::"@, "_mutant::cpi::"@);
        },
        Operator::CloseRentDrop => {
            reveal_strlit("close =");
            reveal_strlit("// close removed (mutation)");
            lemma_contains_nonempty(t, "close ="@);
            lemma_replace_first_changes(t, "close ="@, "// close removed (mutation)"@);
            lemma_replace_first_last(t, "close ="@, "// close removed (mutation)"@);
        },
        Operator::ComparisonFlip => {
            lemma_flip_changes(t, regex_find_all(COMPARISON_PATTERN@, t), 0);
        },
        Operator::ReallocCheckDrop => {
            reveal_strlit("// SIZE CHECK REMOVED (mutation): ");
            if regex_removed(REALLOC_PATTERN@, t) != t && starts_with(t, "#[account"@) && contains(
                t,
                "realloc ="@,
            ) && !starts_with(t, "//"@) {
                reveal_strlit("realloc =");
                lemma_contains_nonempty(t, "realloc ="@);
                lemma_removed_shorter(REALLOC_PATTERN@, t);
            } else {
                reveal_strlit("require!");
                lemma_contains_nonempty(t, "require!"@);
                let head = "// SIZE CHECK REMOVED (mutation): "@;
                assert(x == head + t);
                assert(x.len() != t.len());
                assert(x.last() == t.last());
            }
        },
        Operator::CloseReceiverSwap => {
            let (pre, gs) = regex_captures_of(t);
            let r = "close = "@ + attacker_for(gs[1]->0);
            reveal_strlit("close = ");
            reveal_strlit("attacker");
            reveal_strlit("notauth");
            assert(r.last() == 'r' || r.last() == 'h');
            lemma_replace_first_last(t, gs[0]->0, r);
        },
        Operator::ReinitZeroGuardDrop => {
            reveal_strlit("realloc::zero");
            reveal_strlit("realloc::zero = false");
            lemma_contains_nonempty(t, "realloc::zero"@);
            if contains(t, "realloc::zero = true"@) {
                lemma_replace_first_last(t, "realloc::zero = true"@, "realloc::zero = false"@);
            } else {
                lemma_removed_shorter(REALLOC_ZERO_PATTERN@, t);
            }
        },
        _ => {},
    }
}

/// The capture result that close receiver swap used.
spec fn regex_captures_of(t: Seq<char>) -> (Seq<char>, Seq<Option<Seq<char>>>) {
    crate::pattern::regex_captures(crate::ops::CLOSE_TARGET_PATTERN@, t)->0
}

/// What comparison flip picks differs from the line and ends in a
/// non-whitespace character.
proof fn lemma_flip_changes(t: Seq<char>, ms: Seq<Hit>, i: int)
    requires
        flip_pick(t, ms, i) is Some,
        t.len() > 0 ==> !is_ws(t.last()),
    ensures
        t.len() > 0,
        flip_pick(t, ms, i)->0 != t,
        !is_ws(flip_pick(t, ms, i)->0.last()),
        flip_pick(t, ms, i)->0.len() > 0,
    decreases ms.len() - i,
{
    if !hit_in(t, ms[i].0, ms[i].1) || crate::ops::flip_skipped(t, ms[i].0, ms[i].1) {
        lemma_flip_changes(t, ms, i + 1);
    } else {
        match flip_of(ms[i].1) {
            Some(f) => {
                let op = ms[i].1;
                reveal_strlit("<=");
                reveal_strlit(">=");
                reveal_strlit("<");
                reveal_strlit(">");
                reveal_strlit("==");
                reveal_strlit("!=");
                reveal_strlit("&&");
                reveal_strlit("||");
                let pre = ms[i].0;
                let p = pre.len() as int;
                let r = crate::ops::flipped_at(t, pre, op, f);
                assert(t.subrange(0, p + op.len()) == pre + op);
                assert(op.len() > 0);
                assert(f.len() > 0 && !is_ws(f.last()));
                if f.len() == op.len() {
                    assert(f[0] != op[0]);
                    assert(r[p] == f[0]);
                    assert(t[p] == t.subrange(0, p + op.len())[p]);
                    assert(r[p] != t[p]);
                } else {
                    assert(r.len() != t.len());
                }
                if p + op.len() < t.len() {
                    assert(r.last() == t.last());
                } else {
                    assert(r.last() == f.last());
                }
            },
            None => {
                lemma_flip_changes(t, ms, i + 1);
            },
        }
    }
}

/// Every rule changes the line it fires on.
pub proof fn lemma_op_line_changes(op: Operator, line: Seq<char>)
    requires
        op_line(op, line) is Some,
    ensures
        op_line(op, line)->0 != line,
{
    let t = trim(line);
    lemma_trim(line);
    lemma_trim_last(line);
    match op {
        Operator::SignerCheckRemoval => {},
        Operator::AuthorityCheckDrop => {
            reveal_strlit("require!");
            reveal_strlit("require_keys_eq!");
            reveal_strlit("require_neq!");
            reveal_strlit("// ORIGINAL CHECK REMOVED (mutation): ");
            let m = op_line(op, line)->0;
            let lo = trim_lo(line);
            if starts_with(t, "require!"@) {
                assert(t.subrange(0, 8)[0] == "require!"@[0]);
            } else if starts_with(t, "require_keys_eq!"@) {
                assert(t.subrange(0, 16)[0] == "require_keys_eq!"@[0]);
            } else {
                assert(t.subrange(0, 12)[0] == "require_neq!"@[0]);
            }
            assert(t[0] == 'r');
            assert(m[lo] == '/');
            assert(line[lo] == t[0]);
        },
        Operator::DiscriminatorRemoval => {
            reveal_strlit("require!");
            reveal_strlit("// DISCRIMINATOR CHECK REMOVED (mutation): ");
            let m = op_line(op, line)->0;
            let lo = trim_lo(line);
            assert(t.subrange(0, 8)[0] == "require!"@[0]);
            assert(t[0] == 'r');
            assert(m[lo] == '/');
            assert(line[lo] == t[0]);
        },
        Operator::UncheckedMath => {},
        _ => {
            assert(!is_line_op(op));
            assert(op_core(op, trim(line)) is Some);
            lemma_core_changes(op, t);
            lemma_indent_differs(line, op_core(op, t)->0);
        },
    }
}

// ---------------------------------------------------------------------------
// The law
// ---------------------------------------------------------------------------

proof fn lemma_hits_upto(op: Operator, lines: Seq<Seq<char>>, n: int, j: int)
    requires
        0 <= n <= lines.len(),
        0 <= j < hits_upto(op, lines, n).len(),
    ensures
        0 <= hits_upto(op, lines, n)[j].0 < n,
        op_line(op, lines[hits_upto(op, lines, n)[j].0]) == Some(hits_upto(op, lines, n)[j].1),
    decreases n,
{
    if n > 0 {
        let prev = hits_upto(op, lines, n - 1);
        if j < prev.len() {
            lemma_hits_upto(op, lines, n - 1, j);
        }
    }
}

proof fn lemma_scan_hits(lines: Seq<Seq<char>>, k: int, j: int)
    requires
        0 <= j < scan_hits(lines, k).len(),
    ensures
        0 <= scan_hits(lines, k)[j].1 < lines.len(),
        op_line(scan_hits(lines, k)[j].0, lines[scan_hits(lines, k)[j].1]) == Some(
            scan_hits(lines, k)[j].2,
        ),
    decreases k,
{
    if k > 0 {
        let prev = scan_hits(lines, k - 1);
        if j < prev.len() {
            lemma_scan_hits(lines, k - 1, j);
        } else {
            let op = crate::ops::scan_order(k - 1);
            lemma_hits_upto(op, lines, lines.len() as int, j - prev.len());
        }
    }
}

/// One fault per mutant: every mutant generated from a text stands for one
/// of its lines and changes that line.
pub proof fn law_one_fault_per_mutant(text: Seq<char>, j: int)
    requires
        0 <= j < generated_hits(lines_of(text)).len(),
    ensures
        0 <= generated_hits(lines_of(text))[j].1 < lines_of(text).len(),
        generated_hits(lines_of(text))[j].2 != lines_of(text)[generated_hits(lines_of(text))[j].1],
{
    let ls = lines_of(text);
    lemma_scan_hits(ls, 12, j);
    let h = generated_hits(ls)[j];
    lemma_op_line_changes(h.0, ls[h.1]);
}

// ---------------------------------------------------------------------------
// Every line an operator fires on gets its mutant
// ---------------------------------------------------------------------------

/// Where an operator stands in the scan order.
spec fn scan_index(op: Operator) -> int {
    match op {
        Operator::SignerCheckRemoval => 0,
        Operator::AuthorityCheckDrop => 1,
        Operator::DiscriminatorRemoval => 2,
        Operator::PdaSeedSwap => 3,
        Operator::BumpMismatch => 4,
        Operator::CpiTargetSwap => 5,
        Operator::CloseRentDrop => 6,
        Operator::ComparisonFlip => 7,
        Operator::UncheckedMath => 8,
        Operator::ReallocCheckDrop => 9,
        Operator::CloseReceiverSwap => 10,
        Operator::ReinitZeroGuardDrop => 11,
    }
}

proof fn lemma_hits_complete(op: Operator, lines: Seq<Seq<char>>, n: int, i: int)
    requires
        0 <= i < n <= lines.len(),
        op_line(op, lines[i]) is Some,
    ensures
        hits_upto(op, lines, n).contains((i, op_line(op, lines[i])->0)),
    decreases n,
{
    let prev = hits_upto(op, lines, n - 1);
    let h = (i, op_line(op, lines[i])->0);
    if i == n - 1 {
        assert(hits_upto(op, lines, n)[prev.len() as int] == h);
    } else {
        lemma_hits_complete(op, lines, n - 1, i);
        let k = choose|k: int| 0 <= k < prev.len() && prev[k] == h;
        assert(hits_upto(op, lines, n)[k] == h);
    }
}

proof fn lemma_scan_complete(lines: Seq<Seq<char>>, k: int, q: int, i: int)
    requires
        0 <= q < k <= 12,
        0 <= i < lines.len(),
        op_line(crate::ops::scan_order(q), lines[i]) is Some,
    ensures
        scan_hits(lines, k).contains(
            (crate::ops::scan_order(q), i, op_line(crate::ops::scan_order(q), lines[i])->0),
        ),
    decreases k,
{
    let op = crate::ops::scan_order(q);
    let h = (op, i, op_line(op, lines[i])->0);
    let prev = scan_hits(lines, k - 1);
    if q == k - 1 {
        lemma_hits_complete(op, lines, lines.len() as int, i);
        let hs = hits_upto(op, lines, lines.len() as int);
        let m = choose|m: int| 0 <= m < hs.len() && hs[m] == (i, op_line(op, lines[i])->0);
        let tagged = crate::ops::tagged_hits(op, lines);
        assert(tagged[m] == h);
        assert(scan_hits(lines, k)[prev.len() + m] == h);
    } else {
        lemma_scan_complete(lines, k - 1, q, i);
        let m = choose|m: int| 0 <= m < prev.len() && prev[m] == h;
        assert(scan_hits(lines, k)[m] == h);
    }
}

/// Every line an operator fires on yields that operator's mutant: a file's
/// mutants hold, for each operator and each line whose rewrite it makes, a
/// mutant of that operator for that line (1-based), with the line as the
/// original and the rewrite as the mutated text.
pub proof fn law_every_firing_is_generated(
    text: Seq<char>,
    rel_file: Seq<char>,
    ranges: Seq<(String, std::ops::Range<usize>)>,
    op: Operator,
    i: int,
)
    requires
        0 <= i < lines_of(text).len(),
        op_line(op, lines_of(text)[i]) is Some,
    ensures
        exists|j: int|
            0 <= j < crate::engine::file_mutants(text, rel_file, ranges).len() && {
                let m = #[trigger] crate::engine::file_mutants(text, rel_file, ranges)[j];
                &&& m.operator == op
                &&& m.line == (i + 1) as u32
                &&& m.file == rel_file
                &&& m.original == lines_of(text)[i]
                &&& m.mutated == op_line(op, lines_of(text)[i])->0
            },
{
    let ls = lines_of(text);
    assert(crate::ops::scan_order(scan_index(op)) == op);
    lemma_scan_complete(ls, 12, scan_index(op), i);
    let hs = generated_hits(ls);
    let h = (op, i, op_line(op, ls[i])->0);
    let j = choose|j: int| 0 <= j < hs.len() && hs[j] == h;
    let fm = crate::engine::file_mutants(text, rel_file, ranges);
    assert(fm[j].operator == op);
}

/// An owner or authority check is dropped: on every line whose trimmed text
/// is a `require!`, `require_keys_eq!` or `require_neq!` check that mentions
/// `owner` or `authority` and holds no comment, the file's mutants hold an
/// authority-check-drop mutant for that line, which comments the check out
/// behind the line's indentation.
pub proof fn law_owner_checks_dropped(
    text: Seq<char>,
    rel_file: Seq<char>,
    ranges: Seq<(String, std::ops::Range<usize>)>,
    i: int,
)
    requires
        0 <= i < lines_of(text).len(),
        ({
            let t = trim(lines_of(text)[i]);
            &&& starts_with(t, "require!"@) || starts_with(t, "require_keys_eq!"@) || starts_with(
                t,
                "require_neq!"@,
            )
            &&& contains(t, "owner"@) || contains(t, "authority"@)
            &&& !contains(t, "//"@)
        }),
    ensures
        exists|j: int|
            0 <= j < crate::engine::file_mutants(text, rel_file, ranges).len() && {
                let m = #[trigger] crate::engine::file_mutants(text, rel_file, ranges)[j];
                &&& m.operator == Operator::AuthorityCheckDrop
                &&& m.line == (i + 1) as u32
                &&& m.original == lines_of(text)[i]
                &&& m.mutated == indent(lines_of(text)[i]) + "// ORIGINAL CHECK REMOVED (mutation): "@
                    + trim(lines_of(text)[i])
            },
{
    law_every_firing_is_generated(text, rel_file, ranges, Operator::AuthorityCheckDrop, i);
}

} // verus!
