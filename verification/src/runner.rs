//! The decisions the runner takes on each mutant.
//!
//! Every mutant is one deliberate source change: the change is written into
//! a scratch copy of the program, the program is built with `cargo
//! build-sbf`, and its own test suite runs against the build. What happens at
//! each step (the writing, the build, the test run) is outside work; what the
//! outcome of each step means for the mutant is decided here:
//! - the build fails                 -> BuildFailed
//! - any test fails                  -> Killed
//! - all tests pass                  -> Survived
//! - the run exceeds the timeout     -> TimedOut

use vstd::prelude::*;
use crate::model::{Mutant, MutantResult, Operator, Verdict};
use crate::text::{
    chars_of, contains, contains_str, ends_with, extend, extend_str, is_ws, join, lines_exec, lines_of,
    string_of, trim, trim_exec, view_lines, ws_run_back, char_is_ws,
};

verus! {

// ---------------------------------------------------------------------------
// Exploit sketches
// ---------------------------------------------------------------------------

/// How an attacker exploits a surviving mutant of an operator.
pub open spec fn exploit_text(op: Operator) -> Seq<char> {
    match op {
        Operator::SignerCheckRemoval => "An attacker can invoke the instruction with an unauthorised signer; the missing signer check is not caught by your suite."@,
        Operator::PdaSeedSwap => "The program derives a PDA from the wrong seeds, so it may write to (or read) an account the caller controls instead of the canonical one."@,
        Operator::BumpMismatch => "The program uses a non-canonical bump; the derived address can be wrong, letting a caller target an unintended account."@,
        Operator::AuthorityCheckDrop => "Authority/owner validation is dropped, so a non-authorised caller can run restricted logic."@,
        Operator::DiscriminatorRemoval => "The program accepts a wrong instruction discriminator, so malformed or replay-able accounts can pass validation."@,
        Operator::CpiTargetSwap => "A CPI now targets the wrong program; funds or authority could flow to the wrong place."@,
        Operator::CloseRentDrop => "Closed or non-rent-exempt accounts are not validated; lamports or account state can leak."@,
        Operator::ComparisonFlip => "A boundary check is inverted, so an out-of-range / off-by-one condition passes when it should not."@,
        Operator::UncheckedMath => "A `checked_add` / `checked_sub` / `checked_mul` was replaced by an unchecked arithmetic op; the mutation lets a silent overflow pass through balance / accounting logic that your tests would have caught."@,
        Operator::ReallocCheckDrop => "A `realloc` size guard was removed; the mutation lets an attacker resize / re-initialize an account to an unintended layout, and your suite does not catch it."@,
        Operator::CloseReceiverSwap => "The lamports of a closed account go to a receiver the program never meant; whoever controls that account collects them, and your suite does not catch it."@,
        Operator::ReinitZeroGuardDrop => "A resized account is no longer zeroed, so stale bytes of its old layout survive re-initialization, and your suite does not catch it."@,
    }
}

/// The attacker's view of a surviving mutant of `op`.
pub fn exploit_for(op: Operator) -> (s: &'static str)
    ensures
        s@ == exploit_text(op),
{
    match op {
        Operator::SignerCheckRemoval => "An attacker can invoke the instruction with an unauthorised signer; the missing signer check is not caught by your suite.",
        Operator::PdaSeedSwap => "The program derives a PDA from the wrong seeds, so it may write to (or read) an account the caller controls instead of the canonical one.",
        Operator::BumpMismatch => "The program uses a non-canonical bump; the derived address can be wrong, letting a caller target an unintended account.",
        Operator::AuthorityCheckDrop => "Authority/owner validation is dropped, so a non-authorised caller can run restricted logic.",
        Operator::DiscriminatorRemoval => "The program accepts a wrong instruction discriminator, so malformed or replay-able accounts can pass validation.",
        Operator::CpiTargetSwap => "A CPI now targets the wrong program; funds or authority could flow to the wrong place.",
        Operator::CloseRentDrop => "Closed or non-rent-exempt accounts are not validated; lamports or account state can leak.",
        Operator::ComparisonFlip => "A boundary check is inverted, so an out-of-range / off-by-one condition passes when it should not.",
        Operator::UncheckedMath => "A `checked_add` / `checked_sub` / `checked_mul` was replaced by an unchecked arithmetic op; the mutation lets a silent overflow pass through balance / accounting logic that your tests would have caught.",
        Operator::ReallocCheckDrop => "A `realloc` size guard was removed; the mutation lets an attacker resize / re-initialize an account to an unintended layout, and your suite does not catch it.",
        Operator::CloseReceiverSwap => "The lamports of a closed account go to a receiver the program never meant; whoever controls that account collects them, and your suite does not catch it.",
        Operator::ReinitZeroGuardDrop => "A resized account is no longer zeroed, so stale bytes of its old layout survive re-initialization, and your suite does not catch it.",
    }
}

// ---------------------------------------------------------------------------
// Each sketch describes its operator's bug class
// ---------------------------------------------------------------------------

/// A word naming the bug class of an operator, as its bug class says it.
pub open spec fn bug_word(op: Operator) -> Seq<char> {
    match op {
        Operator::SignerCheckRemoval => "signer"@,
        Operator::PdaSeedSwap => "seeds"@,
        Operator::BumpMismatch => "bump"@,
        Operator::AuthorityCheckDrop => "owner"@,
        Operator::DiscriminatorRemoval => "discriminator"@,
        Operator::CpiTargetSwap => "wrong program"@,
        Operator::CloseRentDrop => "rent-exempt"@,
        Operator::ComparisonFlip => "boundary"@,
        Operator::UncheckedMath => "overflow"@,
        Operator::ReallocCheckDrop => "resize"@,
        Operator::CloseReceiverSwap => "receiver"@,
        Operator::ReinitZeroGuardDrop => "stale bytes"@,
    }
}

proof fn lemma_sketch_signer_check_removal()
    ensures
        contains(exploit_text(Operator::SignerCheckRemoval), bug_word(Operator::SignerCheckRemoval)),
        contains(crate::model::operator_bug_class(Operator::SignerCheckRemoval), bug_word(Operator::SignerCheckRemoval)),
{
    reveal_strlit("An attacker can invoke the instruction with an unauthorised signer; the missing signer check is not caught by your suite.");
    reveal_strlit("missing signer validation");
    reveal_strlit("signer");
    let e = exploit_text(Operator::SignerCheckRemoval);
    let b = crate::model::operator_bug_class(Operator::SignerCheckRemoval);
    let w = bug_word(Operator::SignerCheckRemoval);
    assert(e.subrange(60, 66) =~= w);
    assert(b.subrange(8, 14) =~= w);
    crate::text::lemma_find_from(e, w, 0);
    crate::text::lemma_find_from(b, w, 0);
    assert(crate::text::match_at(e, w, 60));
    assert(crate::text::match_at(b, w, 8));
}

proof fn lemma_sketch_pda_seed_swap()
    ensures
        contains(exploit_text(Operator::PdaSeedSwap), bug_word(Operator::PdaSeedSwap)),
        contains(crate::model::operator_bug_class(Operator::PdaSeedSwap), bug_word(Operator::PdaSeedSwap)),
{
    reveal_strlit("The program derives a PDA from the wrong seeds, so it may write to (or read) an account the caller controls instead of the canonical one.");
    reveal_strlit("wrong seeds, wrong account resolution");
    reveal_strlit("seeds");
    let e = exploit_text(Operator::PdaSeedSwap);
    let b = crate::model::operator_bug_class(Operator::PdaSeedSwap);
    let w = bug_word(Operator::PdaSeedSwap);
    assert(e.subrange(41, 46) =~= w);
    assert(b.subrange(6, 11) =~= w);
    crate::text::lemma_find_from(e, w, 0);
    crate::text::lemma_find_from(b, w, 0);
    assert(crate::text::match_at(e, w, 41));
    assert(crate::text::match_at(b, w, 6));
}

proof fn lemma_sketch_bump_mismatch()
    ensures
        contains(exploit_text(Operator::BumpMismatch), bug_word(Operator::BumpMismatch)),
        contains(crate::model::operator_bug_class(Operator::BumpMismatch), bug_word(Operator::BumpMismatch)),
{
    reveal_strlit("The program uses a non-canonical bump; the derived address can be wrong, letting a caller target an unintended account.");
    reveal_strlit("using the wrong PDA bump");
    reveal_strlit("bump");
    let e = exploit_text(Operator::BumpMismatch);
    let b = crate::model::operator_bug_class(Operator::BumpMismatch);
    let w = bug_word(Operator::BumpMismatch);
    assert(e.subrange(33, 37) =~= w);
    assert(b.subrange(20, 24) =~= w);
    crate::text::lemma_find_from(e, w, 0);
    crate::text::lemma_find_from(b, w, 0);
    assert(crate::text::match_at(e, w, 33));
    assert(crate::text::match_at(b, w, 20));
}

proof fn lemma_sketch_authority_check_drop()
    ensures
        contains(exploit_text(Operator::AuthorityCheckDrop), bug_word(Operator::AuthorityCheckDrop)),
        contains(crate::model::operator_bug_class(Operator::AuthorityCheckDrop), bug_word(Operator::AuthorityCheckDrop)),
{
    reveal_strlit("Authority/owner validation is dropped, so a non-authorised caller can run restricted logic.");
    reveal_strlit("missing owner/authority validation");
    reveal_strlit("owner");
    let e = exploit_text(Operator::AuthorityCheckDrop);
    let b = crate::model::operator_bug_class(Operator::AuthorityCheckDrop);
    let w = bug_word(Operator::AuthorityCheckDrop);
    assert(e.subrange(10, 15) =~= w);
    assert(b.subrange(8, 13) =~= w);
    crate::text::lemma_find_from(e, w, 0);
    crate::text::lemma_find_from(b, w, 0);
    assert(crate::text::match_at(e, w, 10));
    assert(crate::text::match_at(b, w, 8));
}

proof fn lemma_sketch_discriminator_removal()
    ensures
        contains(exploit_text(Operator::DiscriminatorRemoval), bug_word(Operator::DiscriminatorRemoval)),
        contains(crate::model::operator_bug_class(Operator::DiscriminatorRemoval), bug_word(Operator::DiscriminatorRemoval)),
{
    reveal_strlit("The program accepts a wrong instruction discriminator, so malformed or replay-able accounts can pass validation.");
    reveal_strlit("accepting wrong instruction discriminators");
    reveal_strlit("discriminator");
    let e = exploit_text(Operator::DiscriminatorRemoval);
    let b = crate::model::operator_bug_class(Operator::DiscriminatorRemoval);
    let w = bug_word(Operator::DiscriminatorRemoval);
    assert(e.subrange(40, 53) =~= w);
    assert(b.subrange(28, 41) =~= w);
    crate::text::lemma_find_from(e, w, 0);
    crate::text::lemma_find_from(b, w, 0);
    assert(crate::text::match_at(e, w, 40));
    assert(crate::text::match_at(b, w, 28));
}

proof fn lemma_sketch_cpi_target_swap()
    ensures
        contains(exploit_text(Operator::CpiTargetSwap), bug_word(Operator::CpiTargetSwap)),
        contains(crate::model::operator_bug_class(Operator::CpiTargetSwap), bug_word(Operator::CpiTargetSwap)),
{
    reveal_strlit("A CPI now targets the wrong program; funds or authority could flow to the wrong place.");
    reveal_strlit("calling the wrong program");
    reveal_strlit("wrong program");
    let e = exploit_text(Operator::CpiTargetSwap);
    let b = crate::model::operator_bug_class(Operator::CpiTargetSwap);
    let w = bug_word(Operator::CpiTargetSwap);
    assert(e.subrange(22, 35) =~= w);
    assert(b.subrange(12, 25) =~= w);
    crate::text::lemma_find_from(e, w, 0);
    crate::text::lemma_find_from(b, w, 0);
    assert(crate::text::match_at(e, w, 22));
    assert(crate::text::match_at(b, w, 12));
}

proof fn lemma_sketch_close_rent_drop()
    ensures
        contains(exploit_text(Operator::CloseRentDrop), bug_word(Operator::CloseRentDrop)),
        contains(crate::model::operator_bug_class(Operator::CloseRentDrop), bug_word(Operator::CloseRentDrop)),
{
    reveal_strlit("Closed or non-rent-exempt accounts are not validated; lamports or account state can leak.");
    reveal_strlit("accounts closed or rent-exempt not validated");
    reveal_strlit("rent-exempt");
    let e = exploit_text(Operator::CloseRentDrop);
    let b = crate::model::operator_bug_class(Operator::CloseRentDrop);
    let w = bug_word(Operator::CloseRentDrop);
    assert(e.subrange(14, 25) =~= w);
    assert(b.subrange(19, 30) =~= w);
    crate::text::lemma_find_from(e, w, 0);
    crate::text::lemma_find_from(b, w, 0);
    assert(crate::text::match_at(e, w, 14));
    assert(crate::text::match_at(b, w, 19));
}

proof fn lemma_sketch_comparison_flip()
    ensures
        contains(exploit_text(Operator::ComparisonFlip), bug_word(Operator::ComparisonFlip)),
        contains(crate::model::operator_bug_class(Operator::ComparisonFlip), bug_word(Operator::ComparisonFlip)),
{
    reveal_strlit("A boundary check is inverted, so an out-of-range / off-by-one condition passes when it should not.");
    reveal_strlit("boundary errors (off-by-one, wrong operator)");
    reveal_strlit("boundary");
    let e = exploit_text(Operator::ComparisonFlip);
    let b = crate::model::operator_bug_class(Operator::ComparisonFlip);
    let w = bug_word(Operator::ComparisonFlip);
    assert(e.subrange(2, 10) =~= w);
    assert(b.subrange(0, 8) =~= w);
    crate::text::lemma_find_from(e, w, 0);
    crate::text::lemma_find_from(b, w, 0);
    assert(crate::text::match_at(e, w, 2));
    assert(crate::text::match_at(b, w, 0));
}

proof fn lemma_sketch_unchecked_math()
    ensures
        contains(exploit_text(Operator::UncheckedMath), bug_word(Operator::UncheckedMath)),
        contains(crate::model::operator_bug_class(Operator::UncheckedMath), bug_word(Operator::UncheckedMath)),
{
    reveal_strlit("A `checked_add` / `checked_sub` / `checked_mul` was replaced by an unchecked arithmetic op; the mutation lets a silent overflow pass through balance / accounting logic that your tests would have caught.");
    reveal_strlit("silent arithmetic overflow (checked_* dropped)");
    reveal_strlit("overflow");
    let e = exploit_text(Operator::UncheckedMath);
    let b = crate::model::operator_bug_class(Operator::UncheckedMath);
    let w = bug_word(Operator::UncheckedMath);
    assert(e.subrange(119, 127) =~= w);
    assert(b.subrange(18, 26) =~= w);
    crate::text::lemma_find_from(e, w, 0);
    crate::text::lemma_find_from(b, w, 0);
    assert(crate::text::match_at(e, w, 119));
    assert(crate::text::match_at(b, w, 18));
}

proof fn lemma_sketch_realloc_check_drop()
    ensures
        contains(exploit_text(Operator::ReallocCheckDrop), bug_word(Operator::ReallocCheckDrop)),
        contains(crate::model::operator_bug_class(Operator::ReallocCheckDrop), bug_word(Operator::ReallocCheckDrop)),
{
    reveal_strlit("A `realloc` size guard was removed; the mutation lets an attacker resize / re-initialize an account to an unintended layout, and your suite does not catch it.");
    reveal_strlit("unchecked account resize / re-init");
    reveal_strlit("resize");
    let e = exploit_text(Operator::ReallocCheckDrop);
    let b = crate::model::operator_bug_class(Operator::ReallocCheckDrop);
    let w = bug_word(Operator::ReallocCheckDrop);
    assert(e.subrange(66, 72) =~= w);
    assert(b.subrange(18, 24) =~= w);
    crate::text::lemma_find_from(e, w, 0);
    crate::text::lemma_find_from(b, w, 0);
    assert(crate::text::match_at(e, w, 66));
    assert(crate::text::match_at(b, w, 18));
}

proof fn lemma_sketch_close_receiver_swap()
    ensures
        contains(exploit_text(Operator::CloseReceiverSwap), bug_word(Operator::CloseReceiverSwap)),
        contains(crate::model::operator_bug_class(Operator::CloseReceiverSwap), bug_word(Operator::CloseReceiverSwap)),
{
    reveal_strlit("The lamports of a closed account go to a receiver the program never meant; whoever controls that account collects them, and your suite does not catch it.");
    reveal_strlit("lamports of a closed account sent to the wrong receiver");
    reveal_strlit("receiver");
    let e = exploit_text(Operator::CloseReceiverSwap);
    let b = crate::model::operator_bug_class(Operator::CloseReceiverSwap);
    let w = bug_word(Operator::CloseReceiverSwap);
    assert(e.subrange(41, 49) =~= w);
    assert(b.subrange(47, 55) =~= w);
    crate::text::lemma_find_from(e, w, 0);
    crate::text::lemma_find_from(b, w, 0);
    assert(crate::text::match_at(e, w, 41));
    assert(crate::text::match_at(b, w, 47));
}

proof fn lemma_sketch_reinit_zero_guard_drop()
    ensures
        contains(exploit_text(Operator::ReinitZeroGuardDrop), bug_word(Operator::ReinitZeroGuardDrop)),
        contains(crate::model::operator_bug_class(Operator::ReinitZeroGuardDrop), bug_word(Operator::ReinitZeroGuardDrop)),
{
    reveal_strlit("A resized account is no longer zeroed, so stale bytes of its old layout survive re-initialization, and your suite does not catch it.");
    reveal_strlit("account re-initialized with stale bytes");
    reveal_strlit("stale bytes");
    let e = exploit_text(Operator::ReinitZeroGuardDrop);
    let b = crate::model::operator_bug_class(Operator::ReinitZeroGuardDrop);
    let w = bug_word(Operator::ReinitZeroGuardDrop);
    assert(e.subrange(42, 53) =~= w);
    assert(b.subrange(28, 39) =~= w);
    crate::text::lemma_find_from(e, w, 0);
    crate::text::lemma_find_from(b, w, 0);
    assert(crate::text::match_at(e, w, 42));
    assert(crate::text::match_at(b, w, 28));
}

/// The exploit sketch of every operator describes that operator's own bug
/// class: it names the bug class by the word its bug class uses (a seed swap
/// speaks of seeds, a bump mismatch of the bump, and so on).
pub proof fn law_sketch_names_bug_class(op: Operator)
    ensures
        contains(exploit_text(op), bug_word(op)),
        contains(crate::model::operator_bug_class(op), bug_word(op)),
{
    match op {
        Operator::SignerCheckRemoval => lemma_sketch_signer_check_removal(),
        Operator::PdaSeedSwap => lemma_sketch_pda_seed_swap(),
        Operator::BumpMismatch => lemma_sketch_bump_mismatch(),
        Operator::AuthorityCheckDrop => lemma_sketch_authority_check_drop(),
        Operator::DiscriminatorRemoval => lemma_sketch_discriminator_removal(),
        Operator::CpiTargetSwap => lemma_sketch_cpi_target_swap(),
        Operator::CloseRentDrop => lemma_sketch_close_rent_drop(),
        Operator::ComparisonFlip => lemma_sketch_comparison_flip(),
        Operator::UncheckedMath => lemma_sketch_unchecked_math(),
        Operator::ReallocCheckDrop => lemma_sketch_realloc_check_drop(),
        Operator::CloseReceiverSwap => lemma_sketch_close_receiver_swap(),
        Operator::ReinitZeroGuardDrop => lemma_sketch_reinit_zero_guard_drop(),
    }
}

// ---------------------------------------------------------------------------
// Output tails
// ---------------------------------------------------------------------------

/// The last `n` items of `s` (all of them where there are fewer).
pub open spec fn last_n<A>(s: Seq<A>, n: nat) -> Seq<A> {
    if s.len() <= n {
        s
    } else {
        s.subrange(s.len() - n, s.len() as int)
    }
}

/// The last `n` lines of an output, joined by newlines.
pub open spec fn tail_of(blob: Seq<char>, n: nat) -> Seq<char> {
    join(last_n(lines_of(blob), n), "\n"@)
}

/// Appends `parts`, joined by newlines.
fn push_joined(out: &mut Vec<char>, parts: &Vec<Vec<char>>, from: usize)
    requires
        from <= parts@.len(),
    ensures
        final(out)@ == old(out)@ + join(view_lines(parts@).subrange(from as int, parts@.len() as int), "\n"@),
{
    let ghost base = out@;
    let ghost pv = view_lines(parts@);
    let mut k: usize = from;
    while k < parts.len()
        invariant
            from <= k <= parts@.len(),
            pv == view_lines(parts@),
            out@ == base + join(pv.subrange(from as int, k as int), "\n"@),
        decreases parts.len() - k,
    {
        assert(pv.subrange(from as int, k + 1).drop_last() =~= pv.subrange(from as int, k as int));
        assert(pv[k as int] == parts@[k as int]@);
        if k > from {
            extend_str(out, "\n");
        }
        extend(out, &parts[k]);
        k = k + 1;
        assert(out@ =~= base + join(pv.subrange(from as int, k as int), "\n"@));
    }
}

/// The last `n` lines of a combined output blob, joined by newlines (for
/// honest error tails).
pub fn tail(blob: &str, n: usize) -> (r: String)
    ensures
        r@ == tail_of(blob@, n as nat),
{
    let ls = lines_exec(&chars_of(blob));
    let from: usize = if ls.len() <= n {
        0
    } else {
        ls.len() - n
    };
    let mut out: Vec<char> = Vec::new();
    push_joined(&mut out, &ls, from);
    assert(view_lines(ls@).subrange(0, ls@.len() as int) =~= view_lines(ls@));
    assert(out@ =~= tail_of(blob@, n as nat));
    string_of(&out)
}

// ---------------------------------------------------------------------------
// Reading a test run's output
// ---------------------------------------------------------------------------

/// `s.split(sep)`: the pieces between the separators, empty ones included.
pub open spec fn split_on(s: Seq<char>, sep: char) -> Seq<Seq<char>>
    decreases s.len(),
{
    if s.len() == 0 {
        seq![Seq::empty()]
    } else {
        let p = split_on(s.drop_last(), sep);
        if s.last() == sep {
            p.push(Seq::empty())
        } else {
            p.update(p.len() - 1, p.last().push(s.last()))
        }
    }
}

proof fn lemma_split_on_len(s: Seq<char>, sep: char)
    ensures
        split_on(s, sep).len() >= 1,
    decreases s.len(),
{
    if s.len() > 0 {
        lemma_split_on_len(s.drop_last(), sep);
    }
}

/// The start of the run of non-whitespace that ends at `j`.
pub open spec fn word_start(s: Seq<char>, j: int) -> int
    decreases j,
{
    if 0 < j <= s.len() && !is_ws(s[j - 1]) {
        word_start(s, j - 1)
    } else {
        j
    }
}

/// `s.split_whitespace().last()`.
pub open spec fn last_word(s: Seq<char>) -> Option<Seq<char>> {
    let e = ws_run_back(s, s.len() as int);
    if e <= 0 {
        None
    } else {
        Some(s.subrange(word_start(s, e), e))
    }
}

/// An ASCII decimal digit.
pub open spec fn is_digit(c: char) -> bool {
    48 <= (c as u32) <= 57
}

/// The value of a string of decimal digits.
pub open spec fn digits_value(d: Seq<char>) -> nat
    decreases d.len(),
{
    if d.len() == 0 {
        0
    } else {
        digits_value(d.drop_last()) * 10 + ((d.last() as u32) - 48) as nat
    }
}

/// Every character is a decimal digit.
pub open spec fn all_digits(d: Seq<char>) -> bool {
    forall|i: int| 0 <= i < d.len() ==> #[trigger] is_digit(d[i])
}

/// `s.parse::<usize>()`: an optional `+`, then at least one decimal digit
/// and nothing else, of a value that fits.
pub open spec fn parse_usize(s: Seq<char>) -> Option<nat> {
    let d = if s.len() > 0 && s[0] == '+' {
        s.drop_first()
    } else {
        s
    };
    if d.len() > 0 && all_digits(d) && digits_value(d) <= usize::MAX {
        Some(digits_value(d))
    } else {
        None
    }
}

/// The count a fragment `N failed` of a test summary reports, if any (a
/// fragment ` failed` with no number before it reports zero).
pub open spec fn fragment_count(frag: Seq<char>) -> Option<nat> {
    let f = trim(frag);
    if ends_with(f, " failed"@) {
        let rest = f.subrange(0, f.len() - 7);
        parse_usize(
            match last_word(rest) {
                Some(w) => w,
                None => "0"@,
            },
        )
    } else {
        None
    }
}

/// The count the last fragment with one reports, `prev` where none does.
pub open spec fn fragments_count(frags: Seq<Seq<char>>, prev: nat) -> nat
    decreases frags.len(),
{
    if frags.len() == 0 {
        prev
    } else {
        match fragment_count(frags.last()) {
            Some(n) => n,
            None => fragments_count(frags.drop_last(), prev),
        }
    }
}

/// A test summary line that reports failures.
pub open spec fn is_failure_summary(t: Seq<char>) -> bool {
    crate::text::starts_with(t, "test result: FAILED"@) || contains(t, "test result: FAILED"@)
}

/// The number of failed tests the last failing summary reports, 0 where
/// none does.
pub open spec fn failed_count(lines: Seq<Seq<char>>) -> nat
    decreases lines.len(),
{
    if lines.len() == 0 {
        0
    } else {
        let prev = failed_count(lines.drop_last());
        let t = trim(lines.last());
        if is_failure_summary(t) {
            fragments_count(split_on(t, ';'), prev)
        } else {
            prev
        }
    }
}

/// A line that reports a panic.
pub open spec fn is_panic_line(l: Seq<char>) -> bool {
    contains(l, "panicked at"@) || contains(l, "panicked"@)
}

/// The first line that reports a panic, trimmed.
pub open spec fn first_panic(lines: Seq<Seq<char>>) -> Option<Seq<char>>
    decreases lines.len(),
{
    if lines.len() == 0 {
        None
    } else if is_panic_line(lines[0]) {
        Some(trim(lines[0]))
    } else {
        first_panic(lines.drop_first())
    }
}

/// The pieces of `s` between the separators `sep`.
fn split_exec(s: &Vec<char>, sep: char) -> (r: Vec<Vec<char>>)
    ensures
        view_lines(r@) == split_on(s@, sep),
{
    let mut pieces: Vec<Vec<char>> = Vec::new();
    let mut cur: Vec<char> = Vec::new();
    let mut k: usize = 0;
    while k < s.len()
        invariant
            k <= s@.len(),
            view_lines(pieces@).push(cur@) == split_on(s@.subrange(0, k as int), sep),
        decreases s.len() - k,
    {
        let ghost sub = s@.subrange(0, k + 1);
        assert(sub.drop_last() =~= s@.subrange(0, k as int));
        let ghost prev = view_lines(pieces@);
        proof {
            lemma_split_on_len(s@.subrange(0, k as int), sep);
        }
        if s[k] == sep {
            let done = cur;
            pieces.push(done);
            cur = Vec::new();
            assert(view_lines(pieces@) =~= prev.push(done@));
            assert(view_lines(pieces@).push(cur@) =~= split_on(sub, sep));
        } else {
            cur.push(s[k]);
            assert(view_lines(pieces@).push(cur@) =~= split_on(sub, sep));
        }
        k = k + 1;
    }
    assert(s@.subrange(0, s@.len() as int) =~= s@);
    let ghost prev = view_lines(pieces@);
    pieces.push(cur);
    assert(view_lines(pieces@) =~= prev.push(cur@));
    pieces
}

/// `s.split_whitespace().last()`.
fn last_word_exec(s: &Vec<char>) -> (r: Option<Vec<char>>)
    ensures
        match last_word(s@) {
            Some(w) => r matches Some(v) && v@ == w,
            None => r is None,
        },
{
    let mut e: usize = s.len();
    while e > 0 && char_is_ws(s[e - 1])
        invariant
            e <= s@.len(),
            ws_run_back(s@, s@.len() as int) == ws_run_back(s@, e as int),
        decreases e,
    {
        e = e - 1;
    }
    if e == 0 {
        return None;
    }
    let mut b: usize = e;
    while b > 0 && !char_is_ws(s[b - 1])
        invariant
            b <= e <= s@.len(),
            word_start(s@, e as int) == word_start(s@, b as int),
        decreases b,
    {
        b = b - 1;
    }
    Some(crate::text::slice(s, b, e))
}

proof fn lemma_digits_value_grows(d: Seq<char>, k: int)
    requires
        0 <= k <= d.len(),
    ensures
        digits_value(d.subrange(0, k)) <= digits_value(d),
    decreases d.len() - k,
{
    if k < d.len() {
        lemma_digits_value_grows(d, k + 1);
        assert(d.subrange(0, k + 1).drop_last() =~= d.subrange(0, k));
    } else {
        assert(d.subrange(0, k) =~= d);
    }
}

/// `s.parse::<usize>()`.
fn parse_usize_exec(s: &Vec<char>) -> (r: Option<usize>)
    ensures
        match parse_usize(s@) {
            Some(n) => r == Some(n as usize),
            None => r is None,
        },
{
    let start: usize = if s.len() > 0 && s[0] == '+' {
        1
    } else {
        0
    };
    let ghost d = if s@.len() > 0 && s@[0] == '+' {
        s@.drop_first()
    } else {
        s@
    };
    assert(d =~= s@.subrange(start as int, s@.len() as int));
    if start == s.len() {
        return None;
    }
    let mut acc: usize = 0;
    let mut k: usize = start;
    while k < s.len()
        invariant
            start <= k <= s@.len(),
            d == s@.subrange(start as int, s@.len() as int),
            d == (if s@.len() > 0 && s@[0] == '+' {
                s@.drop_first()
            } else {
                s@
            }),
            d.len() > 0,
            forall|i: int| 0 <= i < k - start ==> #[trigger] is_digit(d[i]),
            acc == digits_value(d.subrange(0, k - start)),
        decreases s.len() - k,
    {
        let c = s[k];
        assert(d[k - start] == c);
        let u = c as u32;
        assert(u == d[k - start] as u32);
        if u < 48 || u > 57 {
            assert(!is_digit(d[k - start]));
            return None;
        }
        assert(d.subrange(0, k - start + 1).drop_last() =~= d.subrange(0, k - start));
        let next = match acc.checked_mul(10) {
            Some(t) => t.checked_add((u - 48) as usize),
            None => None,
        };
        match next {
            Some(v) => {
                acc = v;
            },
            None => {
                proof {
                    lemma_digits_value_grows(d, k - start + 1);
                }
                return None;
            },
        }
        k = k + 1;
    }
    assert(d.subrange(0, d.len() as int) =~= d);
    Some(acc)
}

/// The count a fragment of a test summary reports, if any.
fn fragment_count_exec(frag: &Vec<char>) -> (r: Option<usize>)
    ensures
        match fragment_count(frag@) {
            Some(n) => r == Some(n as usize),
            None => r is None,
        },
{
    let f = trim_exec(frag);
    if !crate::text::ends(&f, " failed") {
        return None;
    }
    proof {
        reveal_strlit(" failed");
    }
    let rest = crate::text::slice(&f, 0, f.len() - 7);
    let num = match last_word_exec(&rest) {
        Some(w) => w,
        None => chars_of("0"),
    };
    parse_usize_exec(&num)
}

/// The first line that reports a panic, trimmed.
fn first_panic_exec(ls: &Vec<Vec<char>>) -> (r: Option<String>)
    ensures
        crate::model::opt_view(r) == first_panic(view_lines(ls@)),
{
    let ghost lv = view_lines(ls@);
    let mut k: usize = 0;
    assert(lv.subrange(0, lv.len() as int) =~= lv);
    while k < ls.len()
        invariant
            lv == view_lines(ls@),
            k <= ls@.len(),
            first_panic(lv) == first_panic(lv.subrange(k as int, lv.len() as int)),
        decreases ls.len() - k,
    {
        let ghost rest = lv.subrange(k as int, lv.len() as int);
        assert(rest.drop_first() =~= lv.subrange(k + 1, lv.len() as int));
        assert(rest[0] == ls@[k as int]@);
        if contains_str(&ls[k], "panicked at") || contains_str(&ls[k], "panicked") {
            return Some(string_of(&trim_exec(&ls[k])));
        }
        k = k + 1;
    }
    None
}

/// Reads a test run's output: the number of failed tests the last failing
/// summary line (`test result: FAILED. .. N failed; ..`) reports (0 where
/// none does), and the first line that reports a panic, trimmed.
pub fn parse_failures(combined: &str) -> (r: (usize, Option<String>))
    ensures
        r.0 == failed_count(lines_of(combined@)),
        crate::model::opt_view(r.1) == first_panic(lines_of(combined@)),
{
    let ls = lines_exec(&chars_of(combined));
    let ghost lv = view_lines(ls@);
    let mut failed: usize = 0;
    let mut k: usize = 0;
    while k < ls.len()
        invariant
            lv == view_lines(ls@),
            k <= ls@.len(),
            failed == failed_count(lv.subrange(0, k as int)),
        decreases ls.len() - k,
    {
        assert(lv.subrange(0, k + 1).drop_last() =~= lv.subrange(0, k as int));
        assert(lv[k as int] == ls@[k as int]@);
        let t = trim_exec(&ls[k]);
        if crate::text::begins(&t, "test result: FAILED") || contains_str(&t, "test result: FAILED") {
            let frags = split_exec(&t, ';');
            let ghost fv = view_lines(frags@);
            let ghost prev = failed_count(lv.subrange(0, k as int));
            let mut j: usize = 0;
            while j < frags.len()
                invariant
                    fv == view_lines(frags@),
                    j <= frags@.len(),
                    failed == fragments_count(fv.subrange(0, j as int), prev),
                decreases frags.len() - j,
            {
                assert(fv.subrange(0, j + 1).drop_last() =~= fv.subrange(0, j as int));
                assert(fv[j as int] == frags@[j as int]@);
                match fragment_count_exec(&frags[j]) {
                    Some(n) => {
                        failed = n;
                    },
                    None => {},
                }
                j = j + 1;
            }
            assert(fv.subrange(0, fv.len() as int) =~= fv);
        }
        k = k + 1;
    }
    assert(lv.subrange(0, lv.len() as int) =~= lv);
    let first = first_panic_exec(&ls);
    (failed, first)
}

/// How the test suite fared against a built mutant.
#[derive(Debug)]
pub struct BuildOutcome {
    pub verdict: Verdict,
    pub failing_tests: usize,
    pub first_failure: Option<String>,
}

/// Reads a finished `cargo test` run of a built mutant. A run without an
/// exit code was killed at the timeout (or interrupted): it is inconclusive,
/// `TimedOut`, with no failing tests. Otherwise the mutant is killed where a
/// summary in the output reports failures or a test panicked, and survives
/// where none did; the failing tests and the first failure are read as
/// `parse_failures` reads them.
pub fn test_outcome(code: Option<i32>, ok: bool, combined: &str) -> (r: BuildOutcome)
    ensures
        (code is None && !ok) ==> r.verdict == Verdict::TimedOut && r.failing_tests == 0
            && crate::model::opt_view(r.first_failure) == Some("cargo test timed out"@),
        !(code is None && !ok) ==> r.verdict == (if contains(combined@, "test result: FAILED"@)
            || contains(combined@, "panicked"@) {
            Verdict::Killed
        } else {
            Verdict::Survived
        }),
        !(code is None && !ok) ==> r.failing_tests == failed_count(lines_of(combined@)),
        !(code is None && !ok) ==> crate::model::opt_view(r.first_failure) == first_panic(
            lines_of(combined@),
        ),
{
    if code.is_none() && !ok {
        return BuildOutcome {
            verdict: Verdict::TimedOut,
            failing_tests: 0,
            first_failure: Some("cargo test timed out".to_string()),
        };
    }
    let (failing_tests, first_failure) = parse_failures(combined);
    let cv = chars_of(combined);
    let had_failure = contains_str(&cv, "test result: FAILED") || contains_str(&cv, "panicked");
    BuildOutcome {
        verdict: if had_failure {
            Verdict::Killed
        } else {
            Verdict::Survived
        },
        failing_tests,
        first_failure,
    }
}

// ---------------------------------------------------------------------------
// The build
// ---------------------------------------------------------------------------

/// Outcome of building a single mutant. Timed-out builds are told apart from
/// genuine compile failures, so that the verdict is honest (a build that was
/// still compiling when killed is `TimedOut`, not `BuildFailed`).
#[derive(Debug)]
pub enum BuildResult {
    Built,
    Failed(String),
    TimedOut,
}

/// `str::trim_end`.
pub open spec fn trim_end(s: Seq<char>) -> Seq<char> {
    s.subrange(0, ws_run_back(s, s.len() as int))
}

/// The decimal notation of a signed number, as `Display` writes it.
pub open spec fn signed_decimal(c: int) -> Seq<char> {
    if c < 0 {
        "-"@ + crate::text::decimal((-c) as nat)
    } else {
        crate::text::decimal(c as nat)
    }
}

/// Why a build failed: its exit code and the last twelve pieces of its
/// output split at newlines, rejoined, trailing whitespace trimmed.
pub open spec fn build_failure(code: i32, output: Seq<char>) -> Seq<char> {
    "cargo build-sbf exited "@ + signed_decimal(code as int) + " — tail:\n"@ + trim_end(
        join(last_n(split_on(output, '\n'), 12), "\n"@),
    )
}

/// What a finished `cargo build-sbf` means: success builds; a missing exit
/// code is a build killed at the timeout; any other exit is a failure, with
/// the exit code and the tail of the output.
pub fn build_result(code: Option<i32>, ok: bool, output: &str) -> (r: BuildResult)
    ensures
        ok ==> r is Built,
        !ok && code is None ==> r is TimedOut,
        !ok ==> (code matches Some(c) ==> (r matches BuildResult::Failed(why) && why@ == build_failure(c, output@))),
{
    if ok {
        return BuildResult::Built;
    }
    let c = match code {
        None => return BuildResult::TimedOut,
        Some(c) => c,
    };
    let pieces = split_exec(&chars_of(output), '\n');
    proof {
        lemma_split_on_len(output@, '\n');
    }
    let from: usize = if pieces.len() <= 12 {
        0
    } else {
        pieces.len() - 12
    };
    let mut joined: Vec<char> = Vec::new();
    push_joined(&mut joined, &pieces, from);
    assert(view_lines(pieces@).subrange(0, pieces@.len() as int) =~= view_lines(pieces@));
    let mut e: usize = joined.len();
    while e > 0 && char_is_ws(joined[e - 1])
        invariant
            e <= joined@.len(),
            ws_run_back(joined@, joined@.len() as int) == ws_run_back(joined@, e as int),
        decreases e,
    {
        e = e - 1;
    }
    let trimmed = crate::text::slice(&joined, 0, e);
    let mut why: Vec<char> = Vec::new();
    extend_str(&mut why, "cargo build-sbf exited ");
    if c < 0 {
        extend_str(&mut why, "-");
        let magnitude: i64 = -(c as i64);
        extend(&mut why, &crate::text::decimal_exec(magnitude as u128));
    } else {
        extend(&mut why, &crate::text::decimal_exec(c as u128));
    }
    extend_str(&mut why, " — tail:\n");
    extend(&mut why, &trimmed);
    assert(why@ =~= build_failure(c, output@));
    BuildResult::Failed(string_of(&why))
}

// ---------------------------------------------------------------------------
// One mutant
// ---------------------------------------------------------------------------

/// `prefix` followed by `s`.
fn prefixed(prefix: &str, s: &String) -> (r: String)
    ensures
        r@ == prefix@ + s@,
{
    let mut v = chars_of(prefix);
    extend_str(&mut v, s.as_str());
    string_of(&v)
}

/// The result of executing one mutant, from the outcome of each step: the
/// writing of the mutated source (its error message where it failed), then,
/// where it succeeded, the build and the time it took, then, where the build
/// succeeded, the test run (its error message where it could not run) and
/// the time it took. A scratch write that fails is a failed build; a test
/// run that cannot run counts as timed out. A survivor carries the exploit
/// sketch of its operator.
pub fn mutant_result(
    m: &Mutant,
    written: &Result<(), String>,
    built: &Option<(BuildResult, u128)>,
    tested: &Option<(Result<BuildOutcome, String>, u128)>,
) -> (r: MutantResult)
    requires
        written is Ok ==> built is Some,
        written is Ok ==> (built matches Some((BuildResult::Built, _)) ==> tested is Some),
    ensures
        r.mutant == *m,
        match *written {
            Err(e) => r.verdict == Verdict::BuildFailed && crate::model::opt_view(r.first_failure) == Some(
                "scratch write failed: "@ + e@,
            ) && r.failing_tests == 0 && r.build_ms == 0 && r.run_ms == 0,
            Ok(_) => match *built {
                Some((BuildResult::Built, bms)) => r.build_ms == bms && match *tested {
                    Some((Ok(bo), rms)) => r.verdict == bo.verdict && r.failing_tests == bo.failing_tests
                        && r.first_failure == bo.first_failure && r.run_ms == rms,
                    Some((Err(e), rms)) => r.verdict == Verdict::TimedOut && r.failing_tests == 0
                        && crate::model::opt_view(r.first_failure) == Some("test run failed: "@ + e@)
                        && r.run_ms == rms,
                    None => true,
                },
                Some((BuildResult::Failed(why), bms)) => r.verdict == Verdict::BuildFailed
                    && r.failing_tests == 0 && crate::model::opt_view(r.first_failure) == Some(
                    "cargo build-sbf failed: "@ + why@,
                ) && r.build_ms == bms && r.run_ms == 0,
                Some((BuildResult::TimedOut, bms)) => r.verdict == Verdict::TimedOut && r.failing_tests
                    == 0 && crate::model::opt_view(r.first_failure) == Some(
                    "cargo build-sbf timed out"@,
                ) && r.build_ms == bms && r.run_ms == 0,
                None => true,
            },
        },
        r.verdict == Verdict::Survived ==> crate::model::opt_view(r.exploit) == Some(
            exploit_text(m.operator),
        ),
        r.verdict != Verdict::Survived ==> r.exploit is None,
{
    let mut failing_tests: usize = 0;
    let mut first_failure: Option<String> = None;
    let mut build_ms: u128 = 0;
    let mut run_ms: u128 = 0;
    let verdict = match written {
        Ok(()) => {
            match built {
                Some((BuildResult::Built, bms)) => {
                    build_ms = *bms;
                    match tested {
                        Some((Ok(bo), rms)) => {
                            run_ms = *rms;
                            failing_tests = bo.failing_tests;
                            first_failure = crate::model::clone_opt(&bo.first_failure);
                            bo.verdict
                        },
                        Some((Err(e), rms)) => {
                            run_ms = *rms;
                            first_failure = Some(prefixed("test run failed: ", e));
                            Verdict::TimedOut
                        },
                        None => Verdict::TimedOut,
                    }
                },
                Some((BuildResult::Failed(why), bms)) => {
                    build_ms = *bms;
                    first_failure = Some(prefixed("cargo build-sbf failed: ", why));
                    Verdict::BuildFailed
                },
                Some((BuildResult::TimedOut, bms)) => {
                    build_ms = *bms;
                    first_failure = Some("cargo build-sbf timed out".to_string());
                    Verdict::TimedOut
                },
                None => Verdict::BuildFailed,
            }
        },
        Err(e) => {
            first_failure = Some(prefixed("scratch write failed: ", e));
            Verdict::BuildFailed
        },
    };
    let exploit = if verdict == Verdict::Survived {
        Some(exploit_for(m.operator).to_string())
    } else {
        None
    };
    MutantResult {
        mutant: m.clone(),
        verdict,
        failing_tests,
        first_failure,
        exploit,
        build_ms,
        run_ms,
    }
}

// ---------------------------------------------------------------------------
// The scratch source and the built program
// ---------------------------------------------------------------------------

/// The source text with the mutant's line replaced: the lines of `text`
/// (`str::lines`), line `line` (1-based; 0 reads as 1) replaced by
/// `mutated` where the text has it, joined by newlines.
pub open spec fn mutated_source(text: Seq<char>, line: u32, mutated: Seq<char>) -> Seq<char> {
    let ls = lines_of(text);
    let idx: int = if line == 0 {
        0
    } else {
        line - 1
    };
    join(
        if idx < ls.len() {
            ls.update(idx, mutated)
        } else {
            ls
        },
        "\n"@,
    )
}

/// Applies the single mutation to a source text.
pub fn apply_mutant(text: &str, line: u32, mutated: &str) -> (r: String)
    ensures
        r@ == mutated_source(text@, line, mutated@),
{
    let mut ls = lines_exec(&chars_of(text));
    let idx: usize = if line == 0 {
        0
    } else {
        (line - 1) as usize
    };
    let ghost before = view_lines(ls@);
    if idx < ls.len() {
        ls.set(idx, chars_of(mutated));
        assert(view_lines(ls@) =~= before.update(idx as int, mutated@));
    }
    let mut out: Vec<char> = Vec::new();
    push_joined(&mut out, &ls, 0);
    assert(view_lines(ls@).subrange(0, ls@.len() as int) =~= view_lines(ls@));
    assert(out@ =~= mutated_source(text@, line, mutated@));
    string_of(&out)
}

/// The string at `package.name` of a TOML document (`None` where the text
/// does not parse, or holds no such string).
pub uninterp spec fn toml_package_name(text: Seq<char>) -> Option<Seq<char>>;

/// `toml::from_str::<toml::Value>`, then `Value::get("package")`,
/// `Value::get("name")` and `Value::as_str`: the package name a Cargo
/// manifest declares. The contract names the result as a function of the
/// text alone.
#[verifier::external_body]
pub(crate) fn package_name(manifest: &str) -> (r: Option<String>)
    ensures
        crate::model::opt_view(r) == toml_package_name(manifest@),
{
    let value: toml::Value = toml::from_str(manifest).ok()?;
    value.get("package")?.get("name")?.as_str().map(|s| s.to_string())
}

/// The file name `cargo build-sbf` gives the program it builds, from the
/// package name (`program` where there is none): `-` becomes `_`, and `.so`
/// follows.
pub open spec fn so_name(package: Option<Seq<char>>) -> Seq<char> {
    let name = match package {
        Some(n) => n,
        None => "program"@,
    };
    crate::text::replace_all(name, "-"@, "_"@) + ".so"@
}

/// The `.so` file name for a package name.
pub fn so_name_for(package: &Option<String>) -> (r: String)
    ensures
        r@ == so_name(crate::model::opt_view(*package)),
{
    let name = match package {
        Some(n) => chars_of(n.as_str()),
        None => chars_of("program"),
    };
    proof {
        reveal_strlit("-");
    }
    let mut v = crate::text::replace_all_str(&name, "-", "_");
    extend_str(&mut v, ".so");
    string_of(&v)
}

/// The `.so` file name of the program whose Cargo manifest is given (`None`
/// where it could not be read).
pub fn program_so_name(manifest: &Option<String>) -> (r: String)
    ensures
        r@ == so_name(
            match *manifest {
                Some(t) => toml_package_name(t@),
                None => None,
            },
        ),
{
    let package = match manifest {
        Some(t) => package_name(t.as_str()),
        None => None,
    };
    so_name_for(&package)
}

/// Directory entries a copy of the program tree leaves out: build output,
/// version control, JavaScript dependencies and Anchor's own state.
pub open spec fn is_skipped_entry(name: Seq<char>) -> bool {
    name == "target"@ || name == ".git"@ || name == "node_modules"@ || name == ".anchor"@
}

/// Whether a copy of the program tree leaves out the entry `name`.
pub fn skipped_entry(name: &str) -> (b: bool)
    ensures
        b == is_skipped_entry(name@),
{
    let n = chars_of(name);
    crate::text::same_str(&n, "target") || crate::text::same_str(&n, ".git") || crate::text::same_str(
        &n,
        "node_modules",
    ) || crate::text::same_str(&n, ".anchor")
}

/// Whether restoring the scratch tree keeps the entry `name`: the build
/// output, so that the incremental build cache survives.
pub fn kept_on_restore(name: &str) -> (b: bool)
    ensures
        b == (name@ == "target"@),
{
    crate::text::same_str(&chars_of(name), "target")
}

/// Writing a mutant into its source changes that one line and no other: the
/// lines of the written source are the lines of the source with the
/// mutant's line replaced by the mutated one (for a mutated line without a
/// newline, sources whose lines do not end with a carriage return, and a
/// last line that is not left empty).
pub proof fn law_mutant_changes_one_line(text: Seq<char>, line: u32, mutated: Seq<char>)
    requires
        1 <= line <= lines_of(text).len(),
        forall|k: int| 0 <= k < lines_of(text).len() ==> crate::text::no_trailing_cr(#[trigger] lines_of(text)[k]),
        crate::text::no_newline(mutated),
        crate::text::no_trailing_cr(mutated),
        lines_of(text).update(line - 1, mutated).last().len() > 0,
    ensures
        lines_of(mutated_source(text, line, mutated)) == lines_of(text).update(line - 1, mutated),
{
    let ls = lines_of(text);
    let u = ls.update(line - 1, mutated);
    crate::text::lemma_lines_no_newline(text, 0);
    reveal_strlit("\n");
    assert("\n"@ =~= seq!['\n']);
    assert forall|k: int| 0 <= k < u.len() implies crate::text::no_newline(#[trigger] u[k]) by {
        if k != line - 1 {
            assert(u[k] == ls[k]);
        }
    }
    assert forall|k: int| 0 <= k < u.len() implies crate::text::no_trailing_cr(#[trigger] u[k]) by {
        if k != line - 1 {
            assert(u[k] == ls[k]);
        }
    }
    crate::text::lemma_lines_of_join(u);
}

} // verus!
