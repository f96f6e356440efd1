//! The decisions of a run that do not touch the outside world: which
//! generated mutants are kept, how verdicts aggregate into a report, the
//! report's timestamp format and the CI gate.

use vstd::prelude::*;
use crate::model::{operator_id, InstructionScore, Mutant, MutantResult, MutantView, Operator, Report, Verdict};
use crate::text::{
    chars_of, decimal, decimal_exec, extend, extend_str, same, trim, trim_exec, view_lines,
};

verus! {

// ---------------------------------------------------------------------------
// Dropping meaningless and duplicate mutants
// ---------------------------------------------------------------------------

/// The values of a sequence of mutants.
pub open spec fn mutant_views(ms: Seq<Mutant>) -> Seq<MutantView> {
    ms.map_values(|m: Mutant| m@)
}

/// What identifies a mutant: its operator, location (file and line) and
/// mutated text.
pub open spec fn mutant_key(m: MutantView) -> (Operator, Seq<char>, u32, Seq<char>) {
    (m.operator, m.file, m.line, m.mutated)
}

/// The key of a mutant as the executable code holds it.
pub type MutantKey = (Operator, Vec<char>, u32, Vec<char>);

/// The value of a held key.
pub open spec fn key_view(k: MutantKey) -> (Operator, Seq<char>, u32, Seq<char>) {
    (k.0, k.1@, k.2, k.3@)
}

/// The values of held keys.
pub open spec fn key_views(ks: Seq<MutantKey>) -> Seq<(Operator, Seq<char>, u32, Seq<char>)> {
    ks.map_values(|k: MutantKey| key_view(k))
}

/// A mutant worth running: its operator is not skipped and it changes more
/// than whitespace at the ends of the line.
pub open spec fn eligible(m: MutantView, skip: Seq<Operator>) -> bool {
    !skip.contains(m.operator) && trim(m.original) != trim(m.mutated)
}

/// The mutant at `i` is kept: it is eligible and no earlier eligible mutant
/// has its key.
pub open spec fn kept_at(ms: Seq<MutantView>, skip: Seq<Operator>, i: int) -> bool {
    eligible(ms[i], skip) && forall|j: int|
        0 <= j < i && eligible(ms[j], skip) ==> mutant_key(ms[j]) != mutant_key(ms[i])
}

/// The mutants among the first `n` that are kept, in their order.
pub open spec fn dedup_upto(ms: Seq<MutantView>, skip: Seq<Operator>, n: int) -> Seq<MutantView>
    decreases n,
{
    if n <= 0 {
        Seq::empty()
    } else {
        dedup_upto(ms, skip, n - 1) + if kept_at(ms, skip, n - 1) {
            seq![ms[n - 1]]
        } else {
            Seq::empty()
        }
    }
}

/// A mutant renumbered.
pub open spec fn with_id(m: MutantView, id: int) -> MutantView {
    MutantView { id: id as usize, ..m }
}

/// Some eligible mutant before `i` has the key `s`.
pub open spec fn key_from_earlier(
    ms: Seq<MutantView>,
    skip: Seq<Operator>,
    i: int,
    s: (Operator, Seq<char>, u32, Seq<char>),
) -> bool {
    exists|j: int| 0 <= j < i && eligible(ms[j], skip) && mutant_key(ms[j]) == s
}

proof fn lemma_key_from_earlier_grows(
    ms: Seq<MutantView>,
    skip: Seq<Operator>,
    i: int,
    s: (Operator, Seq<char>, u32, Seq<char>),
)
    requires
        key_from_earlier(ms, skip, i, s),
    ensures
        key_from_earlier(ms, skip, i + 1, s),
{
    let j = choose|j: int| 0 <= j < i && eligible(ms[j], skip) && mutant_key(ms[j]) == s;
    assert(0 <= j < i + 1 && eligible(ms[j], skip) && mutant_key(ms[j]) == s);
}

fn operator_skipped(skip: &[Operator], op: Operator) -> (b: bool)
    ensures
        b == skip@.contains(op),
{
    let mut i: usize = 0;
    while i < skip.len()
        invariant
            i <= skip@.len(),
            forall|j: int| 0 <= j < i ==> skip@[j] != op,
        decreases skip.len() - i,
    {
        if skip[i] == op {
            assert(skip@[i as int] == op);
            return true;
        }
        i = i + 1;
    }
    false
}

/// The key of a mutant.
pub fn key_of(m: &Mutant) -> (k: MutantKey)
    ensures
        key_view(k) == mutant_key(m@),
{
    (m.operator, chars_of(m.file.as_str()), m.line, chars_of(m.mutated.as_str()))
}

fn same_key(a: &MutantKey, b: &MutantKey) -> (r: bool)
    ensures
        r == (key_view(*a) == key_view(*b)),
{
    a.0 == b.0 && same(&a.1, &b.1) && a.2 == b.2 && same(&a.3, &b.3)
}

fn seen_contains(seen: &Vec<MutantKey>, key: &MutantKey) -> (b: bool)
    ensures
        b == key_views(seen@).contains(key_view(*key)),
{
    let mut i: usize = 0;
    while i < seen.len()
        invariant
            i <= seen@.len(),
            forall|j: int| 0 <= j < i ==> key_views(seen@)[j] != key_view(*key),
        decreases seen.len() - i,
    {
        if same_key(&seen[i], key) {
            assert(key_views(seen@)[i as int] == key_view(*key));
            return true;
        }
        i = i + 1;
    }
    false
}

/// Removes meaningless mutants: those of a skipped operator, those whose
/// mutated text equals the original after trimming (no actual change), and
/// exact duplicates (same operator, location and mutated text) of an earlier
/// mutant. The kept mutants are renumbered from 0 in order; the second
/// result is how many were dropped.
pub fn dedup_equivalents(mutants: Vec<Mutant>, skip: &[Operator]) -> (r: (Vec<Mutant>, usize))
    ensures
        r.0@.len() == dedup_upto(mutant_views(mutants@), skip@, mutants@.len() as int).len(),
        forall|k: int|
            0 <= k < r.0@.len() ==> (#[trigger] r.0@[k])@ == with_id(
                dedup_upto(mutant_views(mutants@), skip@, mutants@.len() as int)[k],
                k,
            ),
        r.1 + r.0@.len() == mutants@.len(),
{
    let ghost vs = mutant_views(mutants@);
    let ghost sk = skip@;
    let mut seen: Vec<MutantKey> = Vec::new();
    let mut kept: Vec<Mutant> = Vec::new();
    let mut dropped: usize = 0;
    let n = mutants.len();
    let mut i: usize = 0;
    while i < n
        invariant
            n == mutants@.len(),
            vs == mutant_views(mutants@),
            sk == skip@,
            i <= n,
            kept@.len() == dedup_upto(vs, sk, i as int).len(),
            forall|k: int|
                0 <= k < kept@.len() ==> (#[trigger] kept@[k])@ == with_id(
                    dedup_upto(vs, sk, i as int)[k],
                    k,
                ),
            dropped + kept@.len() == i,
            forall|j: int|
                0 <= j < i && eligible(vs[j], sk) ==> key_views(seen@).contains(
                    #[trigger] mutant_key(vs[j]),
                ),
            forall|q: int|
                0 <= q < seen@.len() ==> key_from_earlier(vs, sk, i as int, #[trigger] key_views(seen@)[q]),
        decreases n - i,
    {
        let m = &mutants[i];
        assert(vs[i as int] == m@);
        let skipped = operator_skipped(skip, m.operator);
        let to = trim_exec(&chars_of(m.original.as_str()));
        let tm = trim_exec(&chars_of(m.mutated.as_str()));
        let meaningless = same(&to, &tm);
        let ghost prev = dedup_upto(vs, sk, i as int);
        if skipped || meaningless {
            dropped = dropped + 1;
            assert(!kept_at(vs, sk, i as int));
            assert(dedup_upto(vs, sk, i + 1) =~= prev);
        } else {
            let key = key_of(m);
            if seen_contains(&seen, &key) {
                dropped = dropped + 1;
                let ghost q = choose|q: int| 0 <= q < seen@.len() && key_views(seen@)[q] == key_view(key);
                assert(key_from_earlier(vs, sk, i as int, key_views(seen@)[q]));
                assert(!kept_at(vs, sk, i as int));
                assert(dedup_upto(vs, sk, i + 1) =~= prev);
            } else {
                assert(kept_at(vs, sk, i as int));
                assert(dedup_upto(vs, sk, i + 1) =~= prev.push(vs[i as int]));
                let mut c = m.clone();
                c.id = kept.len();
                let ghost seen0 = key_views(seen@);
                let ghost kv = key_view(key);
                seen.push(key);
                assert(key_views(seen@) =~= seen0.push(mutant_key(vs[i as int])));
                kept.push(c);
                assert forall|q: int| 0 <= q < seen@.len() implies key_from_earlier(
                    vs,
                    sk,
                    i + 1,
                    #[trigger] key_views(seen@)[q],
                ) by {
                    if q == seen@.len() - 1 {
                        assert(mutant_key(vs[i as int]) == key_views(seen@)[q]);
                    } else {
                        assert(key_views(seen@)[q] == seen0[q]);
                        lemma_key_from_earlier_grows(vs, sk, i as int, seen0[q]);
                    }
                }
                assert forall|j: int|
                    0 <= j < i + 1 && eligible(vs[j], sk) implies key_views(seen@).contains(
                    #[trigger] mutant_key(vs[j]),
                ) by {
                    if j == i {
                        assert(key_views(seen@)[seen@.len() - 1] == mutant_key(vs[j]));
                    } else {
                        let q = choose|q: int| 0 <= q < seen0.len() && seen0[q] == mutant_key(vs[j]);
                        assert(key_views(seen@)[q] == seen0[q]);
                    }
                }
            }
        }
        assert forall|q: int| 0 <= q < seen@.len() implies key_from_earlier(
            vs,
            sk,
            i + 1,
            #[trigger] key_views(seen@)[q],
        ) by {
            if q < seen@.len() {
                if key_from_earlier(vs, sk, i as int, key_views(seen@)[q]) {
                    lemma_key_from_earlier_grows(vs, sk, i as int, key_views(seen@)[q]);
                }
            }
        }
        i = i + 1;
    }
    (kept, dropped)
}

/// No two kept mutants share a key, and each kept mutant is eligible.
pub proof fn law_dedup_keys_distinct(ms: Seq<MutantView>, skip: Seq<Operator>, n: int, a: int, b: int)
    requires
        0 <= n <= ms.len(),
        0 <= a < b < dedup_upto(ms, skip, n).len(),
    ensures
        mutant_key(dedup_upto(ms, skip, n)[a]) != mutant_key(dedup_upto(ms, skip, n)[b]),
        eligible(dedup_upto(ms, skip, n)[b], skip),
    decreases n,
{
    let prev = dedup_upto(ms, skip, n - 1);
    if b < prev.len() {
        law_dedup_keys_distinct(ms, skip, n - 1, a, b);
    } else {
        lemma_dedup_from(ms, skip, n - 1, a);
        let j = choose|j: int| 0 <= j < n - 1 && kept_at(ms, skip, j) && ms[j] == prev[a];
        assert(dedup_upto(ms, skip, n)[a] == prev[a]);
    }
}

/// Two mutants are duplicates exactly when they have the same operator,
/// file, line and mutated text.
pub proof fn law_key_tells_mutants_apart(a: MutantView, b: MutantView)
    ensures
        mutant_key(a) == mutant_key(b) <==> (a.operator == b.operator && a.file == b.file && a.line
            == b.line && a.mutated == b.mutated),
{
}

/// A kept mutant stays among the kept mutants of any longer prefix.
proof fn lemma_kept_in(ms: Seq<MutantView>, skip: Seq<Operator>, n: int, i: int)
    requires
        0 <= i < n <= ms.len(),
        kept_at(ms, skip, i),
    ensures
        dedup_upto(ms, skip, n).contains(ms[i]),
    decreases n,
{
    let prev = dedup_upto(ms, skip, n - 1);
    if i == n - 1 {
        assert(dedup_upto(ms, skip, n)[prev.len() as int] == ms[i]);
    } else {
        lemma_kept_in(ms, skip, n - 1, i);
        let k = choose|k: int| 0 <= k < prev.len() && prev[k] == ms[i];
        assert(dedup_upto(ms, skip, n)[k] == ms[i]);
    }
}

/// A mutant worth running is kept unless an earlier mutant worth running
/// has its operator, file, line and mutated text: mutants at different lines
/// (or files, or with different text) are never duplicates of each other.
pub proof fn law_distinct_mutants_kept(ms: Seq<MutantView>, skip: Seq<Operator>, i: int)
    requires
        0 <= i < ms.len(),
        eligible(ms[i], skip),
        forall|j: int|
            0 <= j < i && eligible(ms[j], skip) ==> !(ms[j].operator == ms[i].operator && ms[j].file
                == ms[i].file && #[trigger] ms[j].line == ms[i].line && ms[j].mutated == ms[i].mutated),
    ensures
        dedup_upto(ms, skip, ms.len() as int).contains(ms[i]),
{
    assert forall|j: int| 0 <= j < i && eligible(ms[j], skip) implies mutant_key(ms[j]) != mutant_key(ms[i]) by {
        law_key_tells_mutants_apart(ms[j], ms[i]);
        assert(!(ms[j].operator == ms[i].operator && ms[j].file == ms[i].file && ms[j].line == ms[i].line
            && ms[j].mutated == ms[i].mutated));
    }
    assert(kept_at(ms, skip, i));
    lemma_kept_in(ms, skip, ms.len() as int, i);
}

/// A mutant worth running that is not kept repeats the operator, file, line
/// and mutated text of an earlier mutant worth running.
pub proof fn law_dropped_mutants_repeat(ms: Seq<MutantView>, skip: Seq<Operator>, i: int)
    requires
        0 <= i < ms.len(),
        eligible(ms[i], skip),
        !kept_at(ms, skip, i),
    ensures
        exists|j: int|
            0 <= j < i && eligible(ms[j], skip) && ms[j].operator == ms[i].operator && ms[j].file
                == ms[i].file && ms[j].line == ms[i].line && ms[j].mutated == ms[i].mutated,
{
    let j = choose|j: int| 0 <= j < i && eligible(ms[j], skip) && mutant_key(ms[j]) == mutant_key(ms[i]);
    law_key_tells_mutants_apart(ms[j], ms[i]);
}

/// Kept mutants renumbered from 0 in order, as `dedup_equivalents` returns them.
pub open spec fn renumbered(ks: Seq<MutantView>) -> Seq<MutantView> {
    Seq::new(ks.len(), |k: int| with_id(ks[k], k))
}

/// Dropping meaningless and duplicate mutants a second time changes nothing:
/// every mutant the first pass kept (renumbered) is kept again, in the same
/// order and under the same number, and none is dropped.
pub proof fn law_dedup_idempotent(ms: Seq<MutantView>, skip: Seq<Operator>)
    ensures
        ({
            let r = renumbered(dedup_upto(ms, skip, ms.len() as int));
            &&& dedup_upto(r, skip, r.len() as int) == r
            &&& renumbered(r) == r
        }),
{
    let kept = dedup_upto(ms, skip, ms.len() as int);
    let r = renumbered(kept);
    assert forall|i: int| 0 <= i < r.len() implies #[trigger] eligible(r[i], skip) by {
        lemma_dedup_from(ms, skip, ms.len() as int, i);
    }
    assert forall|i: int, j: int| 0 <= i < j < r.len() implies #[trigger] mutant_key(r[i]) != #[trigger] mutant_key(r[j]) by {
        law_dedup_keys_distinct(ms, skip, ms.len() as int, i, j);
    }
    lemma_all_kept(r, skip, r.len() as int);
    assert(r.subrange(0, r.len() as int) =~= r);
    assert(renumbered(r) =~= r);
}

/// A sequence of eligible mutants with pairwise distinct keys is kept whole.
proof fn lemma_all_kept(r: Seq<MutantView>, skip: Seq<Operator>, n: int)
    requires
        0 <= n <= r.len(),
        forall|i: int| 0 <= i < r.len() ==> #[trigger] eligible(r[i], skip),
        forall|i: int, j: int| 0 <= i < j < r.len() ==> #[trigger] mutant_key(r[i]) != #[trigger] mutant_key(r[j]),
    ensures
        dedup_upto(r, skip, n) =~= r.subrange(0, n),
    decreases n,
{
    if n > 0 {
        lemma_all_kept(r, skip, n - 1);
        assert(kept_at(r, skip, n - 1)) by {
            assert(eligible(r[n - 1], skip));
            assert forall|j: int| 0 <= j < n - 1 && eligible(r[j], skip) implies mutant_key(r[j]) != mutant_key(
                r[n - 1],
            ) by {
                assert(mutant_key(r[j]) != mutant_key(r[n - 1]));
            }
        }
        assert(r.subrange(0, n) =~= r.subrange(0, n - 1).push(r[n - 1]));
    }
}

/// Every kept mutant is one of the input mutants, kept at its position.
proof fn lemma_dedup_from(ms: Seq<MutantView>, skip: Seq<Operator>, n: int, a: int)
    requires
        0 <= n <= ms.len(),
        0 <= a < dedup_upto(ms, skip, n).len(),
    ensures
        exists|j: int| 0 <= j < n && kept_at(ms, skip, j) && ms[j] == dedup_upto(ms, skip, n)[a],
    decreases n,
{
    let prev = dedup_upto(ms, skip, n - 1);
    if a < prev.len() {
        lemma_dedup_from(ms, skip, n - 1, a);
        let j = choose|j: int| 0 <= j < n - 1 && kept_at(ms, skip, j) && ms[j] == prev[a];
        assert(dedup_upto(ms, skip, n)[a] == prev[a]);
    } else {
        assert(kept_at(ms, skip, n - 1));
    }
}

// ---------------------------------------------------------------------------
// The mutants of a program
// ---------------------------------------------------------------------------

/// The mutants `generate` makes of one file.
pub open spec fn file_mutants(
    text: Seq<char>,
    rel_file: Seq<char>,
    ranges: Seq<(String, std::ops::Range<usize>)>,
) -> Seq<MutantView> {
    let lines = crate::text::lines_of(text);
    let hits = crate::ops::generated_hits(lines);
    Seq::new(
        hits.len(),
        |j: int| crate::ops::mutant_of(j, hits[j].0, rel_file, ranges, lines, hits[j].1, hits[j].2),
    )
}

/// The mutants of every file, file after file.
pub open spec fn all_mutants(
    files: Seq<(Seq<char>, Seq<char>)>,
    ranges: Seq<(String, std::ops::Range<usize>)>,
) -> Seq<MutantView>
    decreases files.len(),
{
    if files.len() == 0 {
        Seq::empty()
    } else {
        all_mutants(files.drop_last(), ranges) + file_mutants(files.last().1, files.last().0, ranges)
    }
}

pub open spec fn files_view(files: Seq<(String, String)>) -> Seq<(Seq<char>, Seq<char>)> {
    files.map_values(|f: (String, String)| (f.0@, f.1@))
}

/// The mutants of a program: every file's mutants (`generate`), file after
/// file, with the skipped operators, the meaningless mutants and the
/// duplicates dropped and the rest renumbered (`dedup_equivalents`); and how
/// many were dropped. `files` holds each file's path relative to the program
/// and its text.
pub fn collect_mutants(
    files: &[(String, String)],
    instructions: &[(String, std::ops::Range<usize>)],
    skip: &[Operator],
) -> (r: (Vec<Mutant>, usize))
    ensures
        ({
            let all = all_mutants(files_view(files@), instructions@);
            let kept = dedup_upto(all, skip@, all.len() as int);
            &&& r.0@.len() == kept.len()
            &&& forall|k: int| 0 <= k < r.0@.len() ==> (#[trigger] r.0@[k])@ == with_id(kept[k], k)
            &&& r.1 + r.0@.len() == all.len()
        }),
{
    let ghost fv = files_view(files@);
    let mut generated: Vec<Mutant> = Vec::new();
    let mut f: usize = 0;
    while f < files.len()
        invariant
            fv == files_view(files@),
            f <= files@.len(),
            mutant_views(generated@) == all_mutants(fv.subrange(0, f as int), instructions@),
        decreases files.len() - f,
    {
        assert(fv.subrange(0, f + 1).drop_last() =~= fv.subrange(0, f as int));
        assert(fv[f as int] == (files@[f as int].0@, files@[f as int].1@));
        let ms = crate::ops::generate(files[f].1.as_str(), files[f].0.as_str(), instructions);
        let ghost prev = generated@;
        let ghost fm = file_mutants(files@[f as int].1@, files@[f as int].0@, instructions@);
        let mut k: usize = 0;
        while k < ms.len()
            invariant
                k <= ms@.len(),
                ms@.len() == fm.len(),
                forall|j: int| 0 <= j < ms@.len() ==> (#[trigger] ms@[j])@ == fm[j],
                mutant_views(generated@) == mutant_views(prev) + fm.subrange(0, k as int),
            decreases ms.len() - k,
        {
            let m = ms[k].clone();
            let ghost before = generated@;
            generated.push(m);
            proof {
                assert(mutant_views(before).len() == before.len());
                assert(mutant_views(generated@) =~= mutant_views(prev) + fm.subrange(0, k + 1)) by {
                    assert forall|q: int| 0 <= q < generated@.len() implies #[trigger] mutant_views(generated@)[q]
                        == (mutant_views(prev) + fm.subrange(0, k + 1))[q] by {
                        if q < before.len() {
                            assert(generated@[q] == before[q]);
                            assert(mutant_views(before)[q] == (mutant_views(prev) + fm.subrange(0, k as int))[q]);
                        } else {
                            assert(generated@[q] == m);
                        }
                    }
                }
            }
            k = k + 1;
        }
        assert(fm.subrange(0, fm.len() as int) =~= fm);
        f = f + 1;
    }
    assert(fv.subrange(0, files@.len() as int) =~= fv);
    let ghost all = mutant_views(generated@);
    assert(all.len() == generated@.len());
    dedup_equivalents(generated, skip)
}

// ---------------------------------------------------------------------------
// The program's name
// ---------------------------------------------------------------------------

/// The name a report gives the program: the package name of its manifest,
/// else the name of its directory, else `program`.
pub open spec fn program_name_of(package: Option<Seq<char>>, dir_name: Option<Seq<char>>) -> Seq<char> {
    match package {
        Some(n) => n,
        None => match dir_name {
            Some(d) => d,
            None => "program"@,
        },
    }
}

/// The program's name from its package name and its directory's name.
pub fn name_or_fallback(package: Option<String>, dir_name: Option<String>) -> (r: String)
    ensures
        r@ == program_name_of(crate::model::opt_view(package), crate::model::opt_view(dir_name)),
{
    match package {
        Some(n) => n,
        None => match dir_name {
            Some(d) => d,
            None => "program".to_string(),
        },
    }
}

/// The program's name from its Cargo manifest (`None` where it could not be
/// read) and its directory's name.
pub fn init_name(manifest: &Option<String>, dir_name: Option<String>) -> (r: String)
    ensures
        r@ == program_name_of(
            match *manifest {
                Some(t) => crate::runner::toml_package_name(t@),
                None => None,
            },
            crate::model::opt_view(dir_name),
        ),
{
    let package = match manifest {
        Some(t) => crate::runner::package_name(t.as_str()),
        None => None,
    };
    name_or_fallback(package, dir_name)
}

// ---------------------------------------------------------------------------
// Choosing the operators to skip
// ---------------------------------------------------------------------------

/// `str::to_lowercase` of a text.
pub uninterp spec fn lowercase(s: Seq<char>) -> Seq<char>;

/// `str::to_lowercase`: the contract names the result as a function of the
/// text alone (the Unicode lowercase mapping takes tables to state).
#[verifier::external_body]
fn to_lowercase(s: &str) -> (r: String)
    ensures
        r@ == lowercase(s@),
{
    s.to_lowercase()
}

/// A text with its underscores removed.
pub open spec fn without_underscores(s: Seq<char>) -> Seq<char>
    decreases s.len(),
{
    if s.len() == 0 {
        s
    } else {
        without_underscores(s.drop_last()) + if s.last() == '_' {
            Seq::empty()
        } else {
            seq![s.last()]
        }
    }
}

/// The operators, in the order of `Operator::ALL`.
pub open spec fn all_operators() -> Seq<Operator> {
    seq![
        Operator::SignerCheckRemoval,
        Operator::PdaSeedSwap,
        Operator::BumpMismatch,
        Operator::AuthorityCheckDrop,
        Operator::DiscriminatorRemoval,
        Operator::CpiTargetSwap,
        Operator::CloseRentDrop,
        Operator::ComparisonFlip,
        Operator::UncheckedMath,
        Operator::ReallocCheckDrop,
        Operator::CloseReceiverSwap,
        Operator::ReinitZeroGuardDrop,
    ]
}

/// A `--skip` value names an operator: its id, or its name in any case with
/// or without underscores (the operator's `Debug` name in lower case is its
/// id without underscores).
pub open spec fn names_operator(s: Seq<char>, op: Operator) -> bool {
    operator_id(op) == s || without_underscores(operator_id(op)) == without_underscores(lowercase(s))
}

/// The first operator from position `k` of `ops` on that `s` names.
pub open spec fn named_from(ops: Seq<Operator>, s: Seq<char>, k: int) -> Option<Operator>
    decreases ops.len() - k,
{
    if k < 0 || k >= ops.len() {
        None
    } else if names_operator(s, ops[k]) {
        Some(ops[k])
    } else {
        named_from(ops, s, k + 1)
    }
}

/// An operator's id without its underscores.
pub open spec fn plain_id(op: Operator) -> Seq<char> {
    match op {
        Operator::SignerCheckRemoval => "signercheckremoval"@,
        Operator::PdaSeedSwap => "pdaseedswap"@,
        Operator::BumpMismatch => "bumpmismatch"@,
        Operator::AuthorityCheckDrop => "authoritycheckdrop"@,
        Operator::DiscriminatorRemoval => "discriminatorremoval"@,
        Operator::CpiTargetSwap => "cpitargetswap"@,
        Operator::CloseRentDrop => "closerentdrop"@,
        Operator::ComparisonFlip => "comparisonflip"@,
        Operator::UncheckedMath => "uncheckedmath"@,
        Operator::ReallocCheckDrop => "realloccheckdrop"@,
        Operator::CloseReceiverSwap => "closereceiverswap"@,
        Operator::ReinitZeroGuardDrop => "reinitzeroguarddrop"@,
    }
}

/// Length and first two characters of an operator's id.
spec fn id_tag(op: Operator) -> (nat, char, char) {
    match op {
        Operator::SignerCheckRemoval => (20nat, 's', 'i'),
        Operator::PdaSeedSwap => (13nat, 'p', 'd'),
        Operator::BumpMismatch => (13nat, 'b', 'u'),
        Operator::AuthorityCheckDrop => (20nat, 'a', 'u'),
        Operator::DiscriminatorRemoval => (21nat, 'd', 'i'),
        Operator::CpiTargetSwap => (15nat, 'c', 'p'),
        Operator::CloseRentDrop => (15nat, 'c', 'l'),
        Operator::ComparisonFlip => (15nat, 'c', 'o'),
        Operator::UncheckedMath => (14nat, 'u', 'n'),
        Operator::ReallocCheckDrop => (18nat, 'r', 'e'),
        Operator::CloseReceiverSwap => (19nat, 'c', 'l'),
        Operator::ReinitZeroGuardDrop => (22nat, 'r', 'e'),
    }
}

/// Length and first two characters of an operator's id without underscores.
spec fn plain_tag(op: Operator) -> (nat, char, char) {
    match op {
        Operator::SignerCheckRemoval => (18nat, 's', 'i'),
        Operator::PdaSeedSwap => (11nat, 'p', 'd'),
        Operator::BumpMismatch => (12nat, 'b', 'u'),
        Operator::AuthorityCheckDrop => (18nat, 'a', 'u'),
        Operator::DiscriminatorRemoval => (20nat, 'd', 'i'),
        Operator::CpiTargetSwap => (13nat, 'c', 'p'),
        Operator::CloseRentDrop => (13nat, 'c', 'l'),
        Operator::ComparisonFlip => (14nat, 'c', 'o'),
        Operator::UncheckedMath => (13nat, 'u', 'n'),
        Operator::ReallocCheckDrop => (16nat, 'r', 'e'),
        Operator::CloseReceiverSwap => (17nat, 'c', 'l'),
        Operator::ReinitZeroGuardDrop => (19nat, 'r', 'e'),
    }
}

/// The position of an operator in `all_operators`.
spec fn operator_position(op: Operator) -> int {
    match op {
        Operator::SignerCheckRemoval => 0,
        Operator::PdaSeedSwap => 1,
        Operator::BumpMismatch => 2,
        Operator::AuthorityCheckDrop => 3,
        Operator::DiscriminatorRemoval => 4,
        Operator::CpiTargetSwap => 5,
        Operator::CloseRentDrop => 6,
        Operator::ComparisonFlip => 7,
        Operator::UncheckedMath => 8,
        Operator::ReallocCheckDrop => 9,
        Operator::CloseReceiverSwap => 10,
        Operator::ReinitZeroGuardDrop => 11,
    }
}

proof fn lemma_plain_signer_check_removal()
    ensures
        without_underscores("signer_check_removal"@) == "signercheckremoval"@,
{
    reveal_with_fuel(without_underscores, 23);
    reveal_strlit("signer_check_removal");
    reveal_strlit("signercheckremoval");
    assert(without_underscores("signer_check_removal"@) =~= "signercheckremoval"@);
}

proof fn lemma_plain_pda_seed_swap()
    ensures
        without_underscores("pda_seed_swap"@) == "pdaseedswap"@,
{
    reveal_with_fuel(without_underscores, 23);
    reveal_strlit("pda_seed_swap");
    reveal_strlit("pdaseedswap");
    assert(without_underscores("pda_seed_swap"@) =~= "pdaseedswap"@);
}

proof fn lemma_plain_bump_mismatch()
    ensures
        without_underscores("bump_mismatch"@) == "bumpmismatch"@,
{
    reveal_with_fuel(without_underscores, 23);
    reveal_strlit("bump_mismatch");
    reveal_strlit("bumpmismatch");
    assert(without_underscores("bump_mismatch"@) =~= "bumpmismatch"@);
}

proof fn lemma_plain_authority_check_drop()
    ensures
        without_underscores("authority_check_drop"@) == "authoritycheckdrop"@,
{
    reveal_with_fuel(without_underscores, 23);
    reveal_strlit("authority_check_drop");
    reveal_strlit("authoritycheckdrop");
    assert(without_underscores("authority_check_drop"@) =~= "authoritycheckdrop"@);
}

proof fn lemma_plain_discriminator_removal()
    ensures
        without_underscores("discriminator_removal"@) == "discriminatorremoval"@,
{
    reveal_with_fuel(without_underscores, 23);
    reveal_strlit("discriminator_removal");
    reveal_strlit("discriminatorremoval");
    assert(without_underscores("discriminator_removal"@) =~= "discriminatorremoval"@);
}

proof fn lemma_plain_cpi_target_swap()
    ensures
        without_underscores("cpi_target_swap"@) == "cpitargetswap"@,
{
    reveal_with_fuel(without_underscores, 23);
    reveal_strlit("cpi_target_swap");
    reveal_strlit("cpitargetswap");
    assert(without_underscores("cpi_target_swap"@) =~= "cpitargetswap"@);
}

proof fn lemma_plain_close_rent_drop()
    ensures
        without_underscores("close_rent_drop"@) == "closerentdrop"@,
{
    reveal_with_fuel(without_underscores, 23);
    reveal_strlit("close_rent_drop");
    reveal_strlit("closerentdrop");
    assert(without_underscores("close_rent_drop"@) =~= "closerentdrop"@);
}

proof fn lemma_plain_comparison_flip()
    ensures
        without_underscores("comparison_flip"@) == "comparisonflip"@,
{
    reveal_with_fuel(without_underscores, 23);
    reveal_strlit("comparison_flip");
    reveal_strlit("comparisonflip");
    assert(without_underscores("comparison_flip"@) =~= "comparisonflip"@);
}

proof fn lemma_plain_unchecked_math()
    ensures
        without_underscores("unchecked_math"@) == "uncheckedmath"@,
{
    reveal_with_fuel(without_underscores, 23);
    reveal_strlit("unchecked_math");
    reveal_strlit("uncheckedmath");
    assert(without_underscores("unchecked_math"@) =~= "uncheckedmath"@);
}

proof fn lemma_plain_realloc_check_drop()
    ensures
        without_underscores("realloc_check_drop"@) == "realloccheckdrop"@,
{
    reveal_with_fuel(without_underscores, 23);
    reveal_strlit("realloc_check_drop");
    reveal_strlit("realloccheckdrop");
    assert(without_underscores("realloc_check_drop"@) =~= "realloccheckdrop"@);
}

proof fn lemma_plain_close_receiver_swap()
    ensures
        without_underscores("close_receiver_swap"@) == "closereceiverswap"@,
{
    reveal_with_fuel(without_underscores, 23);
    reveal_strlit("close_receiver_swap");
    reveal_strlit("closereceiverswap");
    assert(without_underscores("close_receiver_swap"@) =~= "closereceiverswap"@);
}

proof fn lemma_plain_reinit_zero_guard_drop()
    ensures
        without_underscores("reinit_zero_guard_drop"@) == "reinitzeroguarddrop"@,
{
    reveal_with_fuel(without_underscores, 23);
    reveal_strlit("reinit_zero_guard_drop");
    reveal_strlit("reinitzeroguarddrop");
    assert(without_underscores("reinit_zero_guard_drop"@) =~= "reinitzeroguarddrop"@);
}

proof fn lemma_plain_id(op: Operator)
    ensures
        without_underscores(operator_id(op)) == plain_id(op),
        operator_id(op).len() == id_tag(op).0,
        operator_id(op)[0] == id_tag(op).1,
        operator_id(op)[1] == id_tag(op).2,
        plain_id(op).len() == plain_tag(op).0,
        plain_id(op)[0] == plain_tag(op).1,
        plain_id(op)[1] == plain_tag(op).2,
{
    match op {
        Operator::SignerCheckRemoval => {
            lemma_plain_signer_check_removal();
            reveal_strlit("signer_check_removal");
            reveal_strlit("signercheckremoval");
        },
        Operator::PdaSeedSwap => {
            lemma_plain_pda_seed_swap();
            reveal_strlit("pda_seed_swap");
            reveal_strlit("pdaseedswap");
        },
        Operator::BumpMismatch => {
            lemma_plain_bump_mismatch();
            reveal_strlit("bump_mismatch");
            reveal_strlit("bumpmismatch");
        },
        Operator::AuthorityCheckDrop => {
            lemma_plain_authority_check_drop();
            reveal_strlit("authority_check_drop");
            reveal_strlit("authoritycheckdrop");
        },
        Operator::DiscriminatorRemoval => {
            lemma_plain_discriminator_removal();
            reveal_strlit("discriminator_removal");
            reveal_strlit("discriminatorremoval");
        },
        Operator::CpiTargetSwap => {
            lemma_plain_cpi_target_swap();
            reveal_strlit("cpi_target_swap");
            reveal_strlit("cpitargetswap");
        },
        Operator::CloseRentDrop => {
            lemma_plain_close_rent_drop();
            reveal_strlit("close_rent_drop");
            reveal_strlit("closerentdrop");
        },
        Operator::ComparisonFlip => {
            lemma_plain_comparison_flip();
            reveal_strlit("comparison_flip");
            reveal_strlit("comparisonflip");
        },
        Operator::UncheckedMath => {
            lemma_plain_unchecked_math();
            reveal_strlit("unchecked_math");
            reveal_strlit("uncheckedmath");
        },
        Operator::ReallocCheckDrop => {
            lemma_plain_realloc_check_drop();
            reveal_strlit("realloc_check_drop");
            reveal_strlit("realloccheckdrop");
        },
        Operator::CloseReceiverSwap => {
            lemma_plain_close_receiver_swap();
            reveal_strlit("close_receiver_swap");
            reveal_strlit("closereceiverswap");
        },
        Operator::ReinitZeroGuardDrop => {
            lemma_plain_reinit_zero_guard_drop();
            reveal_strlit("reinit_zero_guard_drop");
            reveal_strlit("reinitzeroguarddrop");
        },
    }
}

/// Different operators have different ids, with or without underscores.
proof fn lemma_ids_apart(a: Operator, b: Operator)
    requires
        a != b,
    ensures
        operator_id(a) != operator_id(b),
        plain_id(a) != plain_id(b),
{
    lemma_plain_id(a);
    lemma_plain_id(b);
    assert(id_tag(a) != id_tag(b));
    assert(plain_tag(a) != plain_tag(b));
}

/// An operator's id, taken as a `--skip` value, names that operator and no
/// other (its lower case being itself).
pub proof fn law_id_names_its_operator(op: Operator, other: Operator)
    requires
        lowercase(operator_id(op)) == operator_id(op),
    ensures
        names_operator(operator_id(op), other) <==> other == op,
{
    if other != op {
        lemma_ids_apart(op, other);
        lemma_plain_id(op);
        lemma_plain_id(other);
    }
}

/// Every operator stands in `all_operators`.
proof fn lemma_all_operators_hold(op: Operator)
    ensures
        0 <= operator_position(op) < all_operators().len(),
        all_operators()[operator_position(op)] == op,
{
}

/// The first operator from `k` on that `s` names is the one that `s` names,
/// where `s` names exactly one operator, standing at or after `k`.
proof fn lemma_named_from_unique(ops: Seq<Operator>, s: Seq<char>, k: int, op: Operator, p: int)
    requires
        0 <= k <= p < ops.len(),
        ops[p] == op,
        forall|j: int| k <= j < ops.len() ==> (names_operator(s, #[trigger] ops[j]) <==> ops[j] == op),
    ensures
        named_from(ops, s, k) == Some(op),
    decreases p - k,
{
    if ops[k] != op {
        lemma_named_from_unique(ops, s, k + 1, op, p);
    }
}

/// A `--skip` value that is an operator's id skips exactly that operator
/// (its lower case being itself).
pub proof fn law_skip_by_id(op: Operator)
    requires
        lowercase(operator_id(op)) == operator_id(op),
    ensures
        named_from(all_operators(), operator_id(op), 0) == Some(op),
        skipped_operators(seq![operator_id(op)]) == seq![op],
{
    lemma_all_operators_hold(op);
    assert forall|j: int| 0 <= j < all_operators().len() implies (names_operator(
        operator_id(op),
        #[trigger] all_operators()[j],
    ) <==> all_operators()[j] == op) by {
        law_id_names_its_operator(op, all_operators()[j]);
    }
    lemma_named_from_unique(all_operators(), operator_id(op), 0, op, operator_position(op));
    let sk = seq![operator_id(op)];
    assert(sk.drop_last() =~= Seq::<Seq<char>>::empty());
    assert(sk.last() == operator_id(op));
    assert(skipped_operators(sk.drop_last()) =~= Seq::<Operator>::empty());
    assert(skipped_operators(sk) =~= seq![op]);
}

/// A `--skip` value that is an operator's name in any case, with or without
/// underscores (its lower case without underscores being the operator's id
/// without underscores), and that is no other operator's id, skips exactly
/// that operator.
pub proof fn law_skip_by_name(s: Seq<char>, op: Operator)
    requires
        without_underscores(lowercase(s)) == plain_id(op),
        forall|o: Operator| operator_id(o) == s ==> o == op,
    ensures
        named_from(all_operators(), s, 0) == Some(op),
        skipped_operators(seq![s]) == seq![op],
{
    lemma_all_operators_hold(op);
    assert forall|j: int| 0 <= j < all_operators().len() implies (names_operator(
        s,
        #[trigger] all_operators()[j],
    ) <==> all_operators()[j] == op) by {
        let o = all_operators()[j];
        lemma_plain_id(o);
        if o != op {
            lemma_ids_apart(o, op);
        }
    }
    lemma_named_from_unique(all_operators(), s, 0, op, operator_position(op));
    let sk = seq![s];
    assert(sk.drop_last() =~= Seq::<Seq<char>>::empty());
    assert(sk.last() == s);
    assert(skipped_operators(sk.drop_last()) =~= Seq::<Operator>::empty());
    assert(skipped_operators(sk) =~= seq![op]);
}

/// The operators a list of `--skip` values names, in order; a value that
/// names none is ignored.
pub open spec fn skipped_operators(skip: Seq<Seq<char>>) -> Seq<Operator>
    decreases skip.len(),
{
    if skip.len() == 0 {
        Seq::empty()
    } else {
        skipped_operators(skip.drop_last()) + match named_from(all_operators(), skip.last(), 0) {
            Some(op) => seq![op],
            None => Seq::empty(),
        }
    }
}

/// A text with its underscores removed.
fn without_underscores_exec(s: &Vec<char>) -> (r: Vec<char>)
    ensures
        r@ == without_underscores(s@),
{
    let mut r: Vec<char> = Vec::new();
    let mut k: usize = 0;
    while k < s.len()
        invariant
            k <= s@.len(),
            r@ == without_underscores(s@.subrange(0, k as int)),
        decreases s.len() - k,
    {
        assert(s@.subrange(0, k + 1).drop_last() =~= s@.subrange(0, k as int));
        if s[k] != '_' {
            r.push(s[k]);
        }
        k = k + 1;
        assert(r@ =~= without_underscores(s@.subrange(0, k as int)));
    }
    assert(s@.subrange(0, s@.len() as int) =~= s@);
    r
}

/// The first operator that the text `sc` names, `key` being the text in
/// lower case without underscores.
fn named_operator(sc: &Vec<char>, key: &Vec<char>) -> (r: Option<Operator>)
    requires
        key@ == without_underscores(lowercase(sc@)),
    ensures
        r == named_from(all_operators(), sc@, 0),
{
    let all = Operator::ALL;
    assert(all@ == all_operators());
    let mut k: usize = 0;
    while k < 12
        invariant
            all@ == all_operators(),
            key@ == without_underscores(lowercase(sc@)),
            k <= 12,
            named_from(all_operators(), sc@, 0) == named_from(all_operators(), sc@, k as int),
        decreases 12 - k,
    {
        let op = all[k];
        let id = chars_of(op.id());
        if same(&id, sc) || same(&without_underscores_exec(&id), key) {
            return Some(op);
        }
        k = k + 1;
    }
    None
}

/// The operators the `--skip` values name, in order (see `names_operator`).
pub fn skip_operators(skip: &[String]) -> (r: Vec<Operator>)
    ensures
        r@ == skipped_operators(skip@.map_values(|s: String| s@)),
{
    let ghost sv = skip@.map_values(|s: String| s@);
    let mut r: Vec<Operator> = Vec::new();
    let mut i: usize = 0;
    while i < skip.len()
        invariant
            sv == skip@.map_values(|s: String| s@),
            i <= skip@.len(),
            r@ == skipped_operators(sv.subrange(0, i as int)),
        decreases skip.len() - i,
    {
        assert(sv.subrange(0, i + 1).drop_last() =~= sv.subrange(0, i as int));
        assert(sv[i as int] == skip@[i as int]@);
        let sc = chars_of(skip[i].as_str());
        let low = to_lowercase(skip[i].as_str());
        let key = without_underscores_exec(&chars_of(low.as_str()));
        let found = named_operator(&sc, &key);
        match found {
            Some(op) => {
                r.push(op);
            },
            None => {},
        }
        assert(r@ =~= skipped_operators(sv.subrange(0, i + 1)));
        i = i + 1;
    }
    assert(sv.subrange(0, skip@.len() as int) =~= sv);
    r
}

// ---------------------------------------------------------------------------
// Aggregating verdicts into a report
// ---------------------------------------------------------------------------

/// The instruction a result is scored under: the one its mutant was
/// attributed to, `(unknown)` for none.
pub open spec fn instruction_name(r: MutantResult) -> Seq<char> {
    match r.mutant.instruction {
        Some(s) => s@,
        None => "(unknown)"@,
    }
}

/// A result under the given instruction (any, for `None`) with the given
/// verdict (any, for `None`).
pub open spec fn result_matches(r: MutantResult, name: Option<Seq<char>>, v: Option<Verdict>) -> bool {
    (name is None || instruction_name(r) == name->0) && (v is None || r.verdict == v->0)
}

/// How many results match.
pub open spec fn tally(rs: Seq<MutantResult>, name: Option<Seq<char>>, v: Option<Verdict>) -> nat
    decreases rs.len(),
{
    if rs.len() == 0 {
        0
    } else {
        tally(rs.drop_last(), name, v) + if result_matches(rs.last(), name, v) {
            1nat
        } else {
            0nat
        }
    }
}

/// The results whose mutant survived, in order.
pub open spec fn survivors_of(rs: Seq<MutantResult>) -> Seq<MutantResult>
    decreases rs.len(),
{
    if rs.len() == 0 {
        Seq::empty()
    } else {
        survivors_of(rs.drop_last()) + if rs.last().verdict == Verdict::Survived {
            seq![rs.last()]
        } else {
            Seq::empty()
        }
    }
}

/// Lexicographic order on character codes, the order of `String`.
pub open spec fn lex_lt(a: Seq<char>, b: Seq<char>) -> bool
    decreases a.len(),
{
    if b.len() == 0 {
        false
    } else if a.len() == 0 {
        true
    } else if (a[0] as u32) < (b[0] as u32) {
        true
    } else if a[0] == b[0] {
        lex_lt(a.drop_first(), b.drop_first())
    } else {
        false
    }
}

pub proof fn lemma_lex_irreflexive(a: Seq<char>)
    ensures
        !lex_lt(a, a),
    decreases a.len(),
{
    if a.len() > 0 {
        lemma_lex_irreflexive(a.drop_first());
    }
}

pub proof fn lemma_lex_transitive(a: Seq<char>, b: Seq<char>, c: Seq<char>)
    requires
        lex_lt(a, b),
        lex_lt(b, c),
    ensures
        lex_lt(a, c),
    decreases a.len(),
{
    if a.len() > 0 && b.len() > 0 && c.len() > 0 {
        if a[0] == b[0] && b[0] == c[0] {
            lemma_lex_transitive(a.drop_first(), b.drop_first(), c.drop_first());
        }
    }
}

pub proof fn lemma_lex_total(a: Seq<char>, b: Seq<char>)
    requires
        a != b,
    ensures
        lex_lt(a, b) || lex_lt(b, a),
    decreases a.len(),
{
    if a.len() > 0 && b.len() > 0 && a[0] == b[0] {
        if a.drop_first() == b.drop_first() {
            assert(a =~= seq![a[0]] + a.drop_first());
            assert(b =~= seq![b[0]] + b.drop_first());
        }
        lemma_lex_total(a.drop_first(), b.drop_first());
    } else if a.len() == 0 && b.len() == 0 {
        assert(a =~= b);
    } else if a.len() > 0 && b.len() > 0 {
        vstd::utf8::char_u32_cast(a[0], a[0] as u32);
        vstd::utf8::char_u32_cast(b[0], b[0] as u32);
    }
}

fn lex_lt_exec(a: &Vec<char>, b: &Vec<char>) -> (r: bool)
    ensures
        r == lex_lt(a@, b@),
{
    let mut k: usize = 0;
    assert(a@.subrange(0, a@.len() as int) =~= a@);
    assert(b@.subrange(0, b@.len() as int) =~= b@);
    while k < a.len() && k < b.len() && a[k] == b[k]
        invariant
            k <= a@.len(),
            k <= b@.len(),
            lex_lt(a@, b@) == lex_lt(a@.subrange(k as int, a@.len() as int), b@.subrange(
                k as int,
                b@.len() as int,
            )),
        decreases a.len() - k,
    {
        let ghost sa = a@.subrange(k as int, a@.len() as int);
        let ghost sb = b@.subrange(k as int, b@.len() as int);
        assert(sa.drop_first() =~= a@.subrange(k + 1, a@.len() as int));
        assert(sb.drop_first() =~= b@.subrange(k + 1, b@.len() as int));
        k = k + 1;
    }
    let ghost sa = a@.subrange(k as int, a@.len() as int);
    let ghost sb = b@.subrange(k as int, b@.len() as int);
    if k == b.len() {
        false
    } else if k == a.len() {
        true
    } else {
        assert(sa[0] == a@[k as int] && sb[0] == b@[k as int]);
        (a[k] as u32) < (b[k] as u32)
    }
}

/// The instruction name of a result.
fn instruction_name_exec(r: &MutantResult) -> (n: Vec<char>)
    ensures
        n@ == instruction_name(*r),
{
    match &r.mutant.instruction {
        Some(s) => chars_of(s.as_str()),
        None => chars_of("(unknown)"),
    }
}

/// The instruction names of the results, in order.
pub open spec fn result_names(rs: Seq<MutantResult>) -> Seq<Seq<char>> {
    rs.map_values(|r: MutantResult| instruction_name(r))
}

/// The instruction names of the scores, in order.
pub open spec fn score_names(ps: Seq<InstructionScore>) -> Seq<Seq<char>> {
    ps.map_values(|s: InstructionScore| s.instruction@)
}

/// The names are strictly increasing.
pub open spec fn strictly_sorted(names: Seq<Seq<char>>) -> bool {
    forall|a: int, b: int| 0 <= a < b < names.len() ==> lex_lt(#[trigger] names[a], #[trigger] names[b])
}

/// Where `name` stands or belongs in the strictly increasing `names`: every
/// name before the slot is smaller; the slot holds `name` (`found`) or a
/// greater name, or is the end.
fn find_slot(names: &Vec<Vec<char>>, name: &Vec<char>) -> (r: (bool, usize))
    requires
        strictly_sorted(view_lines(names@)),
    ensures
        r.1 <= names@.len(),
        forall|k: int| 0 <= k < r.1 ==> lex_lt(#[trigger] view_lines(names@)[k], name@),
        r.0 ==> r.1 < names@.len() && view_lines(names@)[r.1 as int] == name@,
        !r.0 ==> r.1 == names@.len() || lex_lt(name@, view_lines(names@)[r.1 as int]),
{
    let ghost nv = view_lines(names@);
    let mut pos: usize = 0;
    while pos < names.len() && lex_lt_exec(&names[pos], name)
        invariant
            pos <= names@.len(),
            nv == view_lines(names@),
            forall|k: int| 0 <= k < pos ==> lex_lt(#[trigger] nv[k], name@),
        decreases names.len() - pos,
    {
        pos = pos + 1;
    }
    if pos < names.len() {
        assert(nv[pos as int] == names@[pos as int]@);
        let found = same(&names[pos], name);
        if !found {
            proof {
                lemma_lex_total(nv[pos as int], name@);
            }
        }
        (found, pos)
    } else {
        (false, pos)
    }
}

/// The distinct instruction names of the results, in increasing order.
fn sorted_names(rs: &[MutantResult]) -> (names: Vec<Vec<char>>)
    ensures
        strictly_sorted(view_lines(names@)),
        forall|n: Seq<char>|
            #[trigger] view_lines(names@).contains(n) <==> result_names(rs@).contains(n),
{
    let mut names: Vec<Vec<char>> = Vec::new();
    let mut i: usize = 0;
    while i < rs.len()
        invariant
            i <= rs@.len(),
            strictly_sorted(view_lines(names@)),
            forall|k: int|
                0 <= k < names@.len() ==> exists|j: int|
                    0 <= j < i && instruction_name(rs@[j]) == #[trigger] view_lines(names@)[k],
            forall|j: int|
                0 <= j < i ==> view_lines(names@).contains(#[trigger] instruction_name(rs@[j])),
        decreases rs.len() - i,
    {
        let name = instruction_name_exec(&rs[i]);
        let ghost old_names = view_lines(names@);
        let (found, pos) = find_slot(&names, &name);
        if found {
            assert forall|k: int| 0 <= k < names@.len() implies exists|j: int|
                0 <= j < i + 1 && instruction_name(rs@[j]) == #[trigger] view_lines(names@)[k] by {
                let j = choose|j: int| 0 <= j < i && instruction_name(rs@[j]) == view_lines(names@)[k];
            }
            assert(view_lines(names@)[pos as int] == instruction_name(rs@[i as int]));
        } else {
            names.insert(pos, name);
            let ghost nv = view_lines(names@);
            assert(nv =~= old_names.insert(pos as int, name@));
            assert forall|a: int, b: int| 0 <= a < b < nv.len() implies lex_lt(
                #[trigger] nv[a],
                #[trigger] nv[b],
            ) by {
                if b < pos {
                    assert(nv[a] == old_names[a] && nv[b] == old_names[b]);
                } else if b == pos {
                    assert(nv[a] == old_names[a]);
                } else {
                    assert(nv[b] == old_names[b - 1]);
                    if b - 1 > pos as int {
                        lemma_lex_transitive(name@, old_names[pos as int], old_names[b - 1]);
                    }
                    if a < pos {
                        assert(nv[a] == old_names[a]);
                        lemma_lex_transitive(old_names[a], name@, old_names[b - 1]);
                    } else if a > pos {
                        assert(nv[a] == old_names[a - 1]);
                    }
                }
            }
            assert forall|k: int| 0 <= k < names@.len() implies exists|j: int|
                0 <= j < i + 1 && instruction_name(rs@[j]) == #[trigger] view_lines(names@)[k] by {
                if k == pos {
                    assert(instruction_name(rs@[i as int]) == nv[k]);
                } else if k < pos {
                    let j = choose|j: int| 0 <= j < i && instruction_name(rs@[j]) == old_names[k];
                    assert(nv[k] == old_names[k]);
                } else {
                    let j = choose|j: int| 0 <= j < i && instruction_name(rs@[j]) == old_names[k - 1];
                    assert(nv[k] == old_names[k - 1]);
                }
            }
            assert forall|j: int| 0 <= j < i + 1 implies view_lines(names@).contains(
                #[trigger] instruction_name(rs@[j]),
            ) by {
                if j == i {
                    assert(nv[pos as int] == name@);
                } else {
                    let k = choose|k: int| 0 <= k < old_names.len() && old_names[k] == instruction_name(rs@[j]);
                    if k < pos {
                        assert(nv[k] == old_names[k]);
                    } else {
                        assert(nv[k + 1] == old_names[k]);
                    }
                }
            }
        }
        i = i + 1;
    }
    assert forall|n: Seq<char>|
        #[trigger] view_lines(names@).contains(n) <==> result_names(rs@).contains(n) by {
        if view_lines(names@).contains(n) {
            let k = choose|k: int| 0 <= k < names@.len() && view_lines(names@)[k] == n;
            let nk = view_lines(names@)[k];
            let j = choose|j: int| 0 <= j < i && instruction_name(rs@[j]) == nk;
            assert(result_names(rs@)[j] == n);
        }
        if result_names(rs@).contains(n) {
            let j = choose|j: int| 0 <= j < rs@.len() && result_names(rs@)[j] == n;
            assert(view_lines(names@).contains(instruction_name(rs@[j])));
        }
    }
    names
}

/// The tally of every verdict among the results under one instruction.
fn score_instruction(rs: &[MutantResult], name: &Vec<char>) -> (s: InstructionScore)
    ensures
        s.instruction@ == name@,
        s.killed == tally(rs@, Some(name@), Some(Verdict::Killed)),
        s.survived == tally(rs@, Some(name@), Some(Verdict::Survived)),
        s.build_failed == tally(rs@, Some(name@), Some(Verdict::BuildFailed)),
        s.timed_out == tally(rs@, Some(name@), Some(Verdict::TimedOut)),
        s.total == tally(rs@, Some(name@), None),
{
    let (killed, survived, build_failed, timed_out, total) = count_verdicts(rs, Some(name));
    InstructionScore {
        instruction: crate::text::string_of(name),
        killed,
        survived,
        build_failed,
        timed_out,
        total,
    }
}

proof fn lemma_tally_bound(rs: Seq<MutantResult>, name: Option<Seq<char>>, v: Option<Verdict>)
    ensures
        tally(rs, name, v) <= rs.len(),
    decreases rs.len(),
{
    if rs.len() > 0 {
        lemma_tally_bound(rs.drop_last(), name, v);
    }
}

/// Counts the results under `name` (all of them for `None`) by verdict, and
/// in total.
fn count_verdicts(rs: &[MutantResult], name: Option<&Vec<char>>) -> (c: (usize, usize, usize, usize, usize))
    ensures
        ({
            let nm = match name {
                Some(n) => Some(n@),
                None => None,
            };
            &&& c.0 == tally(rs@, nm, Some(Verdict::Killed))
            &&& c.1 == tally(rs@, nm, Some(Verdict::Survived))
            &&& c.2 == tally(rs@, nm, Some(Verdict::BuildFailed))
            &&& c.3 == tally(rs@, nm, Some(Verdict::TimedOut))
            &&& c.4 == tally(rs@, nm, None)
        }),
{
    let ghost nm = match name {
        Some(n) => Some(n@),
        None => None,
    };
    let mut k: usize = 0;
    let mut s: usize = 0;
    let mut b: usize = 0;
    let mut t: usize = 0;
    let mut total: usize = 0;
    let mut i: usize = 0;
    while i < rs.len()
        invariant
            i <= rs@.len(),
            nm == match name {
                Some(n) => Some(n@),
                None => None::<Seq<char>>,
            },
            k == tally(rs@.subrange(0, i as int), nm, Some(Verdict::Killed)),
            s == tally(rs@.subrange(0, i as int), nm, Some(Verdict::Survived)),
            b == tally(rs@.subrange(0, i as int), nm, Some(Verdict::BuildFailed)),
            t == tally(rs@.subrange(0, i as int), nm, Some(Verdict::TimedOut)),
            total == tally(rs@.subrange(0, i as int), nm, None),
        decreases rs.len() - i,
    {
        let ghost pre = rs@.subrange(0, i as int);
        let ghost next = rs@.subrange(0, i + 1);
        assert(next.drop_last() =~= pre);
        assert(next.last() == rs@[i as int]);
        proof {
            lemma_tally_bound(pre, nm, None);
            lemma_tally_bound(pre, nm, Some(Verdict::Killed));
            lemma_tally_bound(pre, nm, Some(Verdict::Survived));
            lemma_tally_bound(pre, nm, Some(Verdict::BuildFailed));
            lemma_tally_bound(pre, nm, Some(Verdict::TimedOut));
        }
        let r = &rs[i];
        let under = match name {
            Some(n) => {
                let rn = instruction_name_exec(r);
                same(&rn, n)
            },
            None => true,
        };
        if under {
            total = total + 1;
            match r.verdict {
                Verdict::Killed => k = k + 1,
                Verdict::Survived => s = s + 1,
                Verdict::BuildFailed => b = b + 1,
                Verdict::TimedOut => t = t + 1,
            }
        }
        i = i + 1;
    }
    assert(rs@.subrange(0, rs@.len() as int) =~= rs@);
    (k, s, b, t, total)
}

/// Aggregates the results of a run into a report: totals by verdict, one
/// score per instruction (in increasing order of instruction name, results
/// without an instruction under `(unknown)`), the survivors, and every
/// result.
pub fn build_report(program: String, generated_at: String, results: &[MutantResult], dropped: usize) -> (r: Report)
    ensures
        r.program == program,
        r.generated_at == generated_at,
        r.mutants_total == results@.len(),
        r.killed == tally(results@, None, Some(Verdict::Killed)),
        r.survived == tally(results@, None, Some(Verdict::Survived)),
        r.build_failed == tally(results@, None, Some(Verdict::BuildFailed)),
        r.timed_out == tally(results@, None, Some(Verdict::TimedOut)),
        r.dropped_equivalent == dropped,
        strictly_sorted(score_names(r.per_instruction@)),
        forall|n: Seq<char>|
            #[trigger] score_names(r.per_instruction@).contains(n) <==> result_names(results@).contains(n),
        forall|k: int|
            0 <= k < r.per_instruction@.len() ==> ({
                let s = #[trigger] r.per_instruction@[k];
                &&& s.killed == tally(results@, Some(s.instruction@), Some(Verdict::Killed))
                &&& s.survived == tally(results@, Some(s.instruction@), Some(Verdict::Survived))
                &&& s.build_failed == tally(
                    results@,
                    Some(s.instruction@),
                    Some(Verdict::BuildFailed),
                )
                &&& s.timed_out == tally(results@, Some(s.instruction@), Some(Verdict::TimedOut))
                &&& s.total == tally(results@, Some(s.instruction@), None)
            }),
        r.survivors@ == survivors_of(results@),
        r.mutants@ == results@,
{
    let (killed, survived, build_failed, timed_out, _) = count_verdicts(results, None);
    let names = sorted_names(results);
    let ghost nv = view_lines(names@);
    let mut per_instruction: Vec<InstructionScore> = Vec::new();
    let mut k: usize = 0;
    while k < names.len()
        invariant
            k <= names@.len(),
            nv == view_lines(names@),
            per_instruction@.len() == k,
            forall|q: int| 0 <= q < k ==> (#[trigger] per_instruction@[q]).instruction@ == nv[q],
            forall|q: int|
                0 <= q < k ==> ({
                    let s = #[trigger] per_instruction@[q];
                    &&& s.killed == tally(results@, Some(s.instruction@), Some(Verdict::Killed))
                    &&& s.survived == tally(results@, Some(s.instruction@), Some(Verdict::Survived))
                    &&& s.build_failed == tally(
                        results@,
                        Some(s.instruction@),
                        Some(Verdict::BuildFailed),
                    )
                    &&& s.timed_out == tally(results@, Some(s.instruction@), Some(Verdict::TimedOut))
                    &&& s.total == tally(results@, Some(s.instruction@), None)
                }),
        decreases names.len() - k,
    {
        let s = score_instruction(results, &names[k]);
        per_instruction.push(s);
        k = k + 1;
    }
    assert(score_names(per_instruction@) =~= nv);
    let mut survivors: Vec<MutantResult> = Vec::new();
    let mut mutants: Vec<MutantResult> = Vec::new();
    let mut i: usize = 0;
    while i < results.len()
        invariant
            i <= results@.len(),
            survivors@ == survivors_of(results@.subrange(0, i as int)),
            mutants@ == results@.subrange(0, i as int),
        decreases results.len() - i,
    {
        let ghost pre = results@.subrange(0, i as int);
        let ghost next = results@.subrange(0, i + 1);
        assert(next.drop_last() =~= pre);
        let r = results[i].clone();
        if r.verdict == Verdict::Survived {
            survivors.push(results[i].clone());
        }
        mutants.push(r);
        assert(mutants@ =~= next);
        i = i + 1;
    }
    assert(results@.subrange(0, results@.len() as int) =~= results@);
    Report {
        program,
        generated_at,
        mutants_total: results.len(),
        killed,
        survived,
        build_failed,
        timed_out,
        dropped_equivalent: dropped,
        per_instruction,
        survivors,
        mutants,
    }
}

/// The four verdict counts partition the results: for an instruction, or
/// for the whole run, killed, survived, build-failed and timed-out together
/// count the results there, and the whole run counts them all.
pub proof fn law_verdicts_partition(rs: Seq<MutantResult>, name: Option<Seq<char>>)
    ensures
        tally(rs, name, Some(Verdict::Killed)) + tally(rs, name, Some(Verdict::Survived)) + tally(
            rs,
            name,
            Some(Verdict::BuildFailed),
        ) + tally(rs, name, Some(Verdict::TimedOut)) == tally(rs, name, None),
        tally(rs, None, None) == rs.len(),
    decreases rs.len(),
{
    if rs.len() > 0 {
        law_verdicts_partition(rs.drop_last(), name);
    }
}

/// The survivors a report lists are as many as its survived count.
pub proof fn law_survivors_counted(rs: Seq<MutantResult>)
    ensures
        survivors_of(rs).len() == tally(rs, None, Some(Verdict::Survived)),
    decreases rs.len(),
{
    if rs.len() > 0 {
        law_survivors_counted(rs.drop_last());
    }
}

// ---------------------------------------------------------------------------
// Timestamps
// ---------------------------------------------------------------------------

/// `n` in decimal, zero-padded to `width` digits.
pub open spec fn padded(n: int, width: nat) -> Seq<char> {
    crate::text::zero_pad(decimal(n as nat), width)
}

/// The UTC timestamp `YYYY-MM-DDTHH:MM:SSZ` of `secs` seconds after the
/// epoch.
pub open spec fn timestamp(secs: nat) -> Seq<char> {
    let (y, m, d) = crate::calendar::civil_from_days((secs / 86400) as int);
    let rem = secs % 86400;
    padded(y, 4) + "-"@ + padded(m, 2) + "-"@ + padded(d, 2) + "T"@ + padded((rem / 3600) as int, 2)
        + ":"@ + padded(((rem % 3600) / 60) as int, 2) + ":"@ + padded((rem % 60) as int, 2) + "Z"@
}

proof fn lemma_civil_bounds(days: int)
    requires
        0 <= days <= u64::MAX / 86400,
    ensures
        ({
            let z = days + 719468;
            let era = z / 146097;
            let doe = z - era * 146097;
            let yoe = (doe - doe / 1460 + doe / 36524 - doe / 146096) / 365;
            let doy = doe - (365 * yoe + yoe / 4 - yoe / 100);
            &&& 0 <= era
            &&& 0 <= doe < 146097
            &&& 0 <= doe - doe / 1460 + doe / 36524 - doe / 146096
            &&& 0 <= yoe <= 400
            &&& 0 <= 365 * yoe + yoe / 4 - yoe / 100
        }),
{
    let z = days + 719468;
    let era = z / 146097;
    let doe = z - era * 146097;
    assert(0 <= doe < 146097);
    assert(doe / 1460 <= doe) by (nonlinear_arith)
        requires
            0 <= doe,
    ;
    assert(doe - doe / 1460 >= 0);
    assert(doe / 146096 <= 1);
    assert(doe / 36524 >= doe / 146096) by (nonlinear_arith)
        requires
            0 <= doe,
    ;
    let t = doe - doe / 1460 + doe / 36524 - doe / 146096;
    assert(t <= 146097 + 4);
    assert(t / 365 <= 400);
}

/// The UTC timestamp `YYYY-MM-DDTHH:MM:SSZ` of `secs` seconds after the
/// epoch (minimal civil-date formatting, no time zone database).
pub fn format_epoch(secs: u64) -> (r: String)
    ensures
        r@ == timestamp(secs as nat),
{
    let days: u64 = secs / 86400;
    let rem: u64 = secs % 86400;
    let hh: u64 = rem / 3600;
    let mm: u64 = (rem % 3600) / 60;
    let ss: u64 = rem % 60;
    proof {
        lemma_civil_bounds(days as int);
    }
    let z: i64 = days as i64 + 719_468;
    let era: i64 = if z >= 0 {
        z
    } else {
        z - 146_096
    } / 146_097;
    let doe: i64 = z - era * 146_097;
    let yoe: i64 = (doe - doe / 1460 + doe / 36524 - doe / 146_096) / 365;
    let y: i64 = yoe + era * 400;
    let doy: i64 = doe - (365 * yoe + yoe / 4 - yoe / 100);
    proof {
        assert(doy <= 146097);
        assert(5 * doy + 2 >= 0 || doy < 0);
    }
    let mp: i64 = (5 * doy + 2) / 153;
    let d: i64 = doy - (153 * mp + 2) / 5 + 1;
    let m: i64 = if mp < 10 {
        mp + 3
    } else {
        mp - 9
    };
    let y: i64 = if m <= 2 {
        y + 1
    } else {
        y
    };
    assert((y as int, m as int, d as int) == crate::calendar::civil_from_days(days as int));
    let mut out: Vec<char> = Vec::new();
    extend(&mut out, &crate::text::zero_pad_exec(y as u128, 4));
    extend_str(&mut out, "-");
    extend(&mut out, &crate::text::zero_pad_exec(m as u128, 2));
    extend_str(&mut out, "-");
    extend(&mut out, &crate::text::zero_pad_exec(d as u128, 2));
    extend_str(&mut out, "T");
    extend(&mut out, &crate::text::zero_pad_exec(hh as u128, 2));
    extend_str(&mut out, ":");
    extend(&mut out, &crate::text::zero_pad_exec(mm as u128, 2));
    extend_str(&mut out, ":");
    extend(&mut out, &crate::text::zero_pad_exec(ss as u128, 2));
    extend_str(&mut out, "Z");
    assert(out@ =~= timestamp(secs as nat));
    crate::text::string_of(&out)
}

// ---------------------------------------------------------------------------
// Timestamps keep their width and their order
// ---------------------------------------------------------------------------

/// `10` to the power `w`.
pub open spec fn pow10(w: nat) -> nat
    decreases w,
{
    if w == 0 {
        1
    } else {
        10 * pow10((w - 1) as nat)
    }
}

/// A number under `10^w` has at most `w` decimal digits.
proof fn lemma_decimal_len(n: nat, w: nat)
    requires
        w >= 1,
        n < pow10(w),
    ensures
        decimal(n).len() <= w,
    decreases w,
{
    if n >= 10 {
        if w == 1 {
            assert(pow10(1) == 10) by {
                reveal_with_fuel(pow10, 2);
            }
        }
        assert(n / 10 < pow10((w - 1) as nat));
        lemma_decimal_len(n / 10, (w - 1) as nat);
        assert(decimal(n) == decimal(n / 10).push(crate::text::digit((n % 10) as int)));
    }
}

/// A number under `10^w`, padded to `w` digits, has exactly `w` characters.
proof fn lemma_padded_len(n: nat, w: nat)
    requires
        w >= 1,
        n < pow10(w),
    ensures
        padded(n as int, w).len() == w,
{
    lemma_decimal_len(n, w);
}

/// Padding to `w` digits is padding the number without its last digit to
/// `w - 1` digits, then writing the last digit.
proof fn lemma_padded_step(n: nat, w: nat)
    requires
        w >= 2,
        n < pow10(w),
    ensures
        padded(n as int, w) == padded((n / 10) as int, (w - 1) as nat).push(
            crate::text::digit((n % 10) as int),
        ),
{
    lemma_decimal_len(n, w);
    assert(n / 10 < pow10((w - 1) as nat));
    lemma_decimal_len(n / 10, (w - 1) as nat);
    let d = crate::text::digit((n % 10) as int);
    if n >= 10 {
        let s = decimal(n / 10);
        assert(decimal(n) == s.push(d));
        assert(padded(n as int, w) =~= padded((n / 10) as int, (w - 1) as nat).push(d));
    } else {
        assert(decimal(n) == seq![crate::text::digit(n as int)]);
        assert(decimal(0) == seq![crate::text::digit(0)]);
        assert(crate::text::digit(0) == '0');
        assert(padded(n as int, w) =~= padded((n / 10) as int, (w - 1) as nat).push(d));
    }
}

/// The digits are ordered as their values.
proof fn lemma_digit_code(i: int)
    requires
        0 <= i < 10,
    ensures
        crate::text::digit(i) as u32 == 48 + i,
{
}

/// Comparing texts whose first parts have one length: the first parts
/// decide, and where they are equal the rest does.
proof fn lemma_lex_concat(a1: Seq<char>, a2: Seq<char>, r1: Seq<char>, r2: Seq<char>)
    requires
        a1.len() == a2.len(),
        lex_lt(a1, a2) || (a1 == a2 && lex_lt(r1, r2)),
    ensures
        lex_lt(a1 + r1, a2 + r2),
    decreases a1.len(),
{
    if a1.len() == 0 {
        assert(a1 + r1 =~= r1);
        assert(a2 + r2 =~= r2);
    } else {
        assert((a1 + r1)[0] == a1[0]);
        assert((a2 + r2)[0] == a2[0]);
        assert((a1 + r1).drop_first() =~= a1.drop_first() + r1);
        assert((a2 + r2).drop_first() =~= a2.drop_first() + r2);
        if a1 == a2 {
            lemma_lex_concat(a1.drop_first(), a2.drop_first(), r1, r2);
        } else if (a1[0] as u32) < (a2[0] as u32) {
        } else {
            lemma_lex_concat(a1.drop_first(), a2.drop_first(), r1, r2);
        }
    }
}

/// Two numbers under `10^w`, padded to `w` digits, compare as the numbers.
proof fn lemma_padded_order(a: nat, b: nat, w: nat)
    requires
        w >= 1,
        a < b < pow10(w),
    ensures
        lex_lt(padded(a as int, w), padded(b as int, w)),
    decreases w,
{
    if w == 1 {
        assert(pow10(1) == 10) by {
            reveal_with_fuel(pow10, 2);
        }
        assert(padded(a as int, 1) == seq![crate::text::digit(a as int)]);
        assert(padded(b as int, 1) == seq![crate::text::digit(b as int)]);
        lemma_digit_code(a as int);
        lemma_digit_code(b as int);
    } else {
        lemma_padded_step(a, w);
        lemma_padded_step(b, w);
        let pa = padded((a / 10) as int, (w - 1) as nat);
        let pb = padded((b / 10) as int, (w - 1) as nat);
        assert(b / 10 < pow10((w - 1) as nat));
        lemma_padded_len(a / 10, (w - 1) as nat);
        lemma_padded_len(b / 10, (w - 1) as nat);
        let da = crate::text::digit((a % 10) as int);
        let db = crate::text::digit((b % 10) as int);
        assert(pa.push(da) =~= pa + seq![da]);
        assert(pb.push(db) =~= pb + seq![db]);
        if a / 10 < b / 10 {
            lemma_padded_order(a / 10, b / 10, (w - 1) as nat);
        } else {
            lemma_digit_code((a % 10) as int);
            lemma_digit_code((b % 10) as int);
            assert(lex_lt(seq![da], seq![db]));
        }
        lemma_lex_concat(pa, pb, seq![da], seq![db]);
    }
}

/// A field and what follows a separator after it: the field decides, and
/// where the fields are equal the rest does.
proof fn lemma_field_then(p1: Seq<char>, p2: Seq<char>, sep: Seq<char>, t1: Seq<char>, t2: Seq<char>)
    requires
        p1.len() == p2.len(),
        lex_lt(p1, p2) || (p1 == p2 && lex_lt(t1, t2)),
    ensures
        lex_lt(p1 + (sep + t1), p2 + (sep + t2)),
{
    if p1 == p2 && lex_lt(t1, t2) {
        lemma_lex_concat(sep, sep, t1, t2);
    }
    lemma_lex_concat(p1, p2, sep + t1, sep + t2);
}

/// The six fields of a timestamp: year, month, day, hour, minute, second.
pub open spec fn stamp_fields(secs: nat) -> (int, int, int, int, int, int) {
    let (y, m, d) = crate::calendar::civil_from_days((secs / 86400) as int);
    let rem = secs % 86400;
    (y, m, d, (rem / 3600) as int, ((rem % 3600) / 60) as int, (rem % 60) as int)
}

/// The timestamp of fields, written from the right.
pub open spec fn stamp_of(f: (int, int, int, int, int, int)) -> Seq<char> {
    padded(f.0, 4) + ("-"@ + (padded(f.1, 2) + ("-"@ + (padded(f.2, 2) + ("T"@ + (padded(f.3, 2) + (":"@
        + (padded(f.4, 2) + (":"@ + (padded(f.5, 2) + "Z"@))))))))))
}

/// The fields are in the ranges their widths hold.
pub open spec fn fields_fit(f: (int, int, int, int, int, int)) -> bool {
    0 <= f.0 < 10000 && 0 <= f.1 < 100 && 0 <= f.2 < 100 && 0 <= f.3 < 100 && 0 <= f.4 < 100 && 0 <= f.5
        < 100
}

/// Fields in lexicographic order.
pub open spec fn fields_lt(a: (int, int, int, int, int, int), b: (int, int, int, int, int, int)) -> bool {
    a.0 < b.0 || (a.0 == b.0 && (a.1 < b.1 || (a.1 == b.1 && (a.2 < b.2 || (a.2 == b.2 && (a.3 < b.3 || (
    a.3 == b.3 && (a.4 < b.4 || (a.4 == b.4 && a.5 < b.5)))))))))
}

proof fn lemma_pow10_values()
    ensures
        pow10(2) == 100,
        pow10(4) == 10000,
{
    reveal_with_fuel(pow10, 5);
}

/// Twelve pieces joined from the left are the pieces joined from the right.
proof fn lemma_reassociate(
    a: Seq<char>,
    b: Seq<char>,
    c: Seq<char>,
    d: Seq<char>,
    e: Seq<char>,
    f: Seq<char>,
    g: Seq<char>,
    h: Seq<char>,
    i: Seq<char>,
    j: Seq<char>,
    k: Seq<char>,
    l: Seq<char>,
)
    ensures
        a + b + c + d + e + f + g + h + i + j + k + l == a + (b + (c + (d + (e + (f + (g + (h + (i + (j
            + (k + l)))))))))),
{
    assert(a + b + c + d + e + f + g + h + i + j + k + l =~= a + (b + (c + (d + (e + (f + (g + (h + (i
        + (j + (k + l)))))))))));
}

/// A timestamp is the timestamp of its fields.
proof fn lemma_stamp_of_fields(secs: nat)
    ensures
        timestamp(secs) == stamp_of(stamp_fields(secs)),
{
    let f = stamp_fields(secs);
    lemma_reassociate(
        padded(f.0, 4),
        "-"@,
        padded(f.1, 2),
        "-"@,
        padded(f.2, 2),
        "T"@,
        padded(f.3, 2),
        ":"@,
        padded(f.4, 2),
        ":"@,
        padded(f.5, 2),
        "Z"@,
    );
}

/// Before the year 10000 every field fits its width.
proof fn lemma_fields_fit(secs: nat)
    requires
        secs < 253_402_300_800,
    ensures
        fields_fit(stamp_fields(secs)),
        timestamp(secs) == stamp_of(stamp_fields(secs)),
{
    let days = (secs / 86400) as int;
    assert(days < 2932897);
    crate::calendar::law_civil_dates_valid(days);
    let t = crate::calendar::civil_from_days(days);
    assert(crate::calendar::month_len(t.0, t.1) <= 31);
    crate::calendar::lemma_year_range(days);
    let rem = secs % 86400;
    assert(rem / 3600 < 24);
    assert((rem % 3600) / 60 < 60);
    lemma_stamp_of_fields(secs);
}

/// Every timestamp before the year 10000 is 20 characters long:
/// `YYYY-MM-DDTHH:MM:SSZ`.
pub proof fn law_timestamp_width(secs: nat)
    requires
        secs < 253_402_300_800,
    ensures
        timestamp(secs).len() == 20,
{
    lemma_fields_fit(secs);
    lemma_pow10_values();
    let f = stamp_fields(secs);
    lemma_padded_len(f.0 as nat, 4);
    lemma_padded_len(f.1 as nat, 2);
    lemma_padded_len(f.2 as nat, 2);
    lemma_padded_len(f.3 as nat, 2);
    lemma_padded_len(f.4 as nat, 2);
    lemma_padded_len(f.5 as nat, 2);
    reveal_strlit("-");
    reveal_strlit("T");
    reveal_strlit(":");
    reveal_strlit("Z");
}

/// Fields in order give timestamps in order.
proof fn lemma_stamp_order(a: (int, int, int, int, int, int), b: (int, int, int, int, int, int))
    requires
        fields_fit(a),
        fields_fit(b),
        fields_lt(a, b),
    ensures
        lex_lt(stamp_of(a), stamp_of(b)),
{
    lemma_pow10_values();
    lemma_padded_len(a.0 as nat, 4);
    lemma_padded_len(b.0 as nat, 4);
    lemma_padded_len(a.1 as nat, 2);
    lemma_padded_len(b.1 as nat, 2);
    lemma_padded_len(a.2 as nat, 2);
    lemma_padded_len(b.2 as nat, 2);
    lemma_padded_len(a.3 as nat, 2);
    lemma_padded_len(b.3 as nat, 2);
    lemma_padded_len(a.4 as nat, 2);
    lemma_padded_len(b.4 as nat, 2);
    lemma_padded_len(a.5 as nat, 2);
    lemma_padded_len(b.5 as nat, 2);
    let s1 = padded(a.5, 2) + "Z"@;
    let s2 = padded(b.5, 2) + "Z"@;
    let i1 = padded(a.4, 2) + (":"@ + s1);
    let i2 = padded(b.4, 2) + (":"@ + s2);
    let h1 = padded(a.3, 2) + (":"@ + i1);
    let h2 = padded(b.3, 2) + (":"@ + i2);
    let d1 = padded(a.2, 2) + ("T"@ + h1);
    let d2 = padded(b.2, 2) + ("T"@ + h2);
    let m1 = padded(a.1, 2) + ("-"@ + d1);
    let m2 = padded(b.1, 2) + ("-"@ + d2);
    if a.0 < b.0 {
        lemma_padded_order(a.0 as nat, b.0 as nat, 4);
    } else if a.1 < b.1 {
        lemma_padded_order(a.1 as nat, b.1 as nat, 2);
        lemma_field_then(padded(a.1, 2), padded(b.1, 2), "-"@, d1, d2);
    } else if a.2 < b.2 {
        lemma_padded_order(a.2 as nat, b.2 as nat, 2);
        lemma_field_then(padded(a.2, 2), padded(b.2, 2), "T"@, h1, h2);
        lemma_field_then(padded(a.1, 2), padded(b.1, 2), "-"@, d1, d2);
    } else if a.3 < b.3 {
        lemma_padded_order(a.3 as nat, b.3 as nat, 2);
        lemma_field_then(padded(a.3, 2), padded(b.3, 2), ":"@, i1, i2);
        lemma_field_then(padded(a.2, 2), padded(b.2, 2), "T"@, h1, h2);
        lemma_field_then(padded(a.1, 2), padded(b.1, 2), "-"@, d1, d2);
    } else if a.4 < b.4 {
        lemma_padded_order(a.4 as nat, b.4 as nat, 2);
        lemma_field_then(padded(a.4, 2), padded(b.4, 2), ":"@, s1, s2);
        lemma_field_then(padded(a.3, 2), padded(b.3, 2), ":"@, i1, i2);
        lemma_field_then(padded(a.2, 2), padded(b.2, 2), "T"@, h1, h2);
        lemma_field_then(padded(a.1, 2), padded(b.1, 2), "-"@, d1, d2);
    } else {
        lemma_padded_order(a.5 as nat, b.5 as nat, 2);
        lemma_lex_concat(padded(a.5, 2), padded(b.5, 2), "Z"@, "Z"@);
        lemma_field_then(padded(a.4, 2), padded(b.4, 2), ":"@, s1, s2);
        lemma_field_then(padded(a.3, 2), padded(b.3, 2), ":"@, i1, i2);
        lemma_field_then(padded(a.2, 2), padded(b.2, 2), "T"@, h1, h2);
        lemma_field_then(padded(a.1, 2), padded(b.1, 2), "-"@, d1, d2);
    }
    lemma_field_then(padded(a.0, 4), padded(b.0, 4), "-"@, m1, m2);
}

/// A later time has later fields.
proof fn lemma_fields_increase(s1: nat, s2: nat)
    requires
        s1 < s2,
    ensures
        fields_lt(stamp_fields(s1), stamp_fields(s2)),
{
    let d1 = (s1 / 86400) as int;
    let d2 = (s2 / 86400) as int;
    if d1 < d2 {
        crate::calendar::law_dates_increase(d1, d2);
    } else {
        assert(d1 == d2);
        let r1 = s1 % 86400;
        let r2 = s2 % 86400;
        assert(r1 < r2);
        assert(r1 == 3600 * (r1 / 3600) + 60 * ((r1 % 3600) / 60) + r1 % 60);
        assert(r2 == 3600 * (r2 / 3600) + 60 * ((r2 % 3600) / 60) + r2 % 60);
    }
}

/// Timestamps before the year 10000 sort as the times they write: a later
/// time has a timestamp that is greater as a text.
pub proof fn law_timestamp_order(s1: nat, s2: nat)
    requires
        s1 < s2 < 253_402_300_800,
    ensures
        lex_lt(timestamp(s1), timestamp(s2)),
{
    lemma_fields_fit(s1);
    lemma_fields_fit(s2);
    lemma_fields_increase(s1, s2);
    lemma_stamp_order(stamp_fields(s1), stamp_fields(s2));
}

/// The sum of the instruction scores' totals.
pub open spec fn totals_sum(ps: Seq<InstructionScore>) -> int
    decreases ps.len(),
{
    if ps.len() == 0 {
        0
    } else {
        totals_sum(ps.drop_last()) + ps.last().total
    }
}

/// The sum, over the given names, of the results under each.
pub open spec fn tallies_sum(rs: Seq<MutantResult>, names: Seq<Seq<char>>) -> int
    decreases names.len(),
{
    if names.len() == 0 {
        0
    } else {
        tallies_sum(rs, names.drop_last()) + tally(rs, Some(names.last()), None)
    }
}

/// How many of the names are `x`.
pub open spec fn occurrences(names: Seq<Seq<char>>, x: Seq<char>) -> int
    decreases names.len(),
{
    if names.len() == 0 {
        0
    } else {
        occurrences(names.drop_last(), x) + if names.last() == x {
            1int
        } else {
            0int
        }
    }
}

proof fn lemma_tallies_push(rs: Seq<MutantResult>, r: MutantResult, names: Seq<Seq<char>>)
    ensures
        tallies_sum(rs.push(r), names) == tallies_sum(rs, names) + occurrences(names, instruction_name(r)),
    decreases names.len(),
{
    if names.len() > 0 {
        lemma_tallies_push(rs, r, names.drop_last());
        assert(rs.push(r).drop_last() =~= rs);
    }
}

proof fn lemma_occurs_once(names: Seq<Seq<char>>, x: Seq<char>)
    requires
        names.no_duplicates(),
        names.contains(x),
    ensures
        occurrences(names, x) == 1,
    decreases names.len(),
{
    let init = names.drop_last();
    assert(init.no_duplicates());
    if names.last() == x {
        assert forall|k: int| 0 <= k < init.len() implies init[k] != x by {
            assert(init[k] == names[k]);
            assert(names[names.len() - 1] == x);
        }
        lemma_occurs_none(init, x);
    } else {
        let k = choose|k: int| 0 <= k < names.len() && names[k] == x;
        assert(k < names.len() - 1);
        assert(init[k] == x);
        lemma_occurs_once(init, x);
    }
}

proof fn lemma_occurs_none(names: Seq<Seq<char>>, x: Seq<char>)
    requires
        forall|k: int| 0 <= k < names.len() ==> names[k] != x,
    ensures
        occurrences(names, x) == 0,
    decreases names.len(),
{
    if names.len() > 0 {
        assert(names[names.len() - 1] != x);
        lemma_occurs_none(names.drop_last(), x);
    }
}

proof fn lemma_tallies_cover(rs: Seq<MutantResult>, names: Seq<Seq<char>>)
    requires
        names.no_duplicates(),
        forall|i: int| 0 <= i < rs.len() ==> names.contains(#[trigger] instruction_name(rs[i])),
    ensures
        tallies_sum(rs, names) == rs.len(),
    decreases rs.len(),
{
    if rs.len() == 0 {
        lemma_tallies_empty(names);
        assert(rs =~= Seq::<MutantResult>::empty());
    } else {
        let init = rs.drop_last();
        assert forall|i: int| 0 <= i < init.len() implies names.contains(#[trigger] instruction_name(init[i])) by {
            assert(init[i] == rs[i]);
        }
        lemma_tallies_cover(init, names);
        assert(init.push(rs.last()) =~= rs);
        lemma_tallies_push(init, rs.last(), names);
        assert(instruction_name(rs[rs.len() - 1]) == instruction_name(rs.last()));
        lemma_occurs_once(names, instruction_name(rs.last()));
    }
}

proof fn lemma_tallies_empty(names: Seq<Seq<char>>)
    ensures
        tallies_sum(Seq::empty(), names) == 0,
    decreases names.len(),
{
    if names.len() > 0 {
        lemma_tallies_empty(names.drop_last());
    }
}

proof fn lemma_totals_are_tallies(rs: Seq<MutantResult>, ps: Seq<InstructionScore>)
    requires
        forall|k: int| 0 <= k < ps.len() ==> (#[trigger] ps[k]).total == tally(rs, Some(ps[k].instruction@), None),
    ensures
        totals_sum(ps) == tallies_sum(rs, score_names(ps)),
    decreases ps.len(),
{
    if ps.len() > 0 {
        let init = ps.drop_last();
        assert forall|k: int| 0 <= k < init.len() implies (#[trigger] init[k]).total == tally(rs, Some(init[k].instruction@), None) by {
            assert(init[k] == ps[k]);
        }
        lemma_totals_are_tallies(rs, init);
        assert(score_names(ps).drop_last() =~= score_names(init));
        assert(ps[ps.len() - 1] == ps.last());
    }
}

/// The per-instruction table of a report accounts for every mutant exactly
/// once: over scores with distinct names, in increasing order, that are the
/// results' instruction names and hold their results' tallies (as
/// `build_report` makes them), the totals sum to the number of results.
pub proof fn law_instruction_totals(rs: Seq<MutantResult>, ps: Seq<InstructionScore>)
    requires
        strictly_sorted(score_names(ps)),
        forall|n: Seq<char>| #[trigger] score_names(ps).contains(n) <==> result_names(rs).contains(n),
        forall|k: int| 0 <= k < ps.len() ==> (#[trigger] ps[k]).total == tally(rs, Some(ps[k].instruction@), None),
    ensures
        totals_sum(ps) == rs.len(),
{
    let names = score_names(ps);
    assert(names.no_duplicates()) by {
        assert forall|a: int, b: int| 0 <= a < names.len() && 0 <= b < names.len() && a != b implies names[a] != names[b] by {
            if a < b {
                lemma_lex_irreflexive(names[a]);
            } else {
                lemma_lex_irreflexive(names[b]);
            }
        }
    }
    assert forall|i: int| 0 <= i < rs.len() implies names.contains(#[trigger] instruction_name(rs[i])) by {
        assert(result_names(rs)[i] == instruction_name(rs[i]));
        assert(result_names(rs).contains(instruction_name(rs[i])));
    }
    lemma_tallies_cover(rs, names);
    lemma_totals_are_tallies(rs, ps);
}

// ---------------------------------------------------------------------------
// The CI gate
// ---------------------------------------------------------------------------

/// Gate decision of CI mode: `true` means the build must fail because the
/// number of surviving mutants exceeds the allowed maximum.
pub fn ci_verdict(survivors: usize, max_survivors: usize) -> (fail: bool)
    ensures
        fail <==> survivors > max_survivors,
{
    survivors > max_survivors
}

} // verus!
