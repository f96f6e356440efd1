//! Shared data model.
//!
//! Every mutant is one injected fault at one `file:line`, produced by one
//! operator. A run classifies each mutant into one of four verdicts. The report
//! aggregates verdicts into per-instruction and overall mutation scores.

use vstd::prelude::*;

verus! {

/// The mutation operators. Each models a bug class from the Solana
/// audit-findings corpus.
#[derive(Debug, Clone, Copy, PartialEq, Eq, Structural, Hash)]
pub enum Operator {
    /// Remove a `signer` constraint / signer assertion.
    SignerCheckRemoval,
    /// Swap the seeds in a PDA `seeds = [...]` expression.
    PdaSeedSwap,
    /// Change the bump used to derive a PDA.
    BumpMismatch,
    /// Drop an owner/authority `require!` check.
    AuthorityCheckDrop,
    /// Remove an Anchor discriminator check.
    DiscriminatorRemoval,
    /// Point a CPI at a different program.
    CpiTargetSwap,
    /// Drop a `close` / rent-exempt constraint.
    CloseRentDrop,
    /// Flip a comparison/boolean boundary.
    ComparisonFlip,
    /// Replace a `checked_add` / `checked_sub` / `checked_mul` with the
    /// unchecked (`+` / `-` / `*`) form. Models silent arithmetic overflow.
    UncheckedMath,
    /// Drop a `realloc` size guard or size-check on account resize. Models
    /// unchecked account resizing / re-initialization.
    ReallocCheckDrop,
    /// Retarget a `close = <account>` constraint to another receiver.
    CloseReceiverSwap,
    /// Drop the `realloc::zero = true` guard on a resize constraint.
    ReinitZeroGuardDrop,
}

/// The stable machine id of an operator.
pub open spec fn operator_id(op: Operator) -> Seq<char> {
    match op {
        Operator::SignerCheckRemoval => "signer_check_removal"@,
        Operator::PdaSeedSwap => "pda_seed_swap"@,
        Operator::BumpMismatch => "bump_mismatch"@,
        Operator::AuthorityCheckDrop => "authority_check_drop"@,
        Operator::DiscriminatorRemoval => "discriminator_removal"@,
        Operator::CpiTargetSwap => "cpi_target_swap"@,
        Operator::CloseRentDrop => "close_rent_drop"@,
        Operator::ComparisonFlip => "comparison_flip"@,
        Operator::UncheckedMath => "unchecked_math"@,
        Operator::ReallocCheckDrop => "realloc_check_drop"@,
        Operator::CloseReceiverSwap => "close_receiver_swap"@,
        Operator::ReinitZeroGuardDrop => "reinit_zero_guard_drop"@,
    }
}

/// The audit bug class an operator models.
pub open spec fn operator_bug_class(op: Operator) -> Seq<char> {
    match op {
        Operator::SignerCheckRemoval => "missing signer validation"@,
        Operator::PdaSeedSwap => "wrong seeds, wrong account resolution"@,
        Operator::BumpMismatch => "using the wrong PDA bump"@,
        Operator::AuthorityCheckDrop => "missing owner/authority validation"@,
        Operator::DiscriminatorRemoval => "accepting wrong instruction discriminators"@,
        Operator::CpiTargetSwap => "calling the wrong program"@,
        Operator::CloseRentDrop => "accounts closed or rent-exempt not validated"@,
        Operator::ComparisonFlip => "boundary errors (off-by-one, wrong operator)"@,
        Operator::UncheckedMath => "silent arithmetic overflow (checked_* dropped)"@,
        Operator::ReallocCheckDrop => "unchecked account resize / re-init"@,
        Operator::CloseReceiverSwap => "lamports of a closed account sent to the wrong receiver"@,
        Operator::ReinitZeroGuardDrop => "account re-initialized with stale bytes"@,
    }
}

impl Operator {
    /// All operators, in the order of the table in the documentation.
    pub const ALL: [Operator; 12] = [
        Operator::SignerCheckRemoval,
        Operator::PdaSeedSwap,
        Operator::BumpMismatch,
        Operator::AuthorityCheckDrop,
        Operator::DiscriminatorRemoval,
        Operator::CpiTargetSwap,
        Operator::CloseRentDrop,
        Operator::ComparisonFlip,
        Operator::UncheckedMath,
        Operator::ReallocCheckDrop,
        Operator::CloseReceiverSwap,
        Operator::ReinitZeroGuardDrop,
    ];

    /// The stable machine id of this operator.
    pub fn id(self) -> (s: &'static str)
        ensures
            s@ == operator_id(self),
    {
        match self {
            Operator::SignerCheckRemoval => "signer_check_removal",
            Operator::PdaSeedSwap => "pda_seed_swap",
            Operator::BumpMismatch => "bump_mismatch",
            Operator::AuthorityCheckDrop => "authority_check_drop",
            Operator::DiscriminatorRemoval => "discriminator_removal",
            Operator::CpiTargetSwap => "cpi_target_swap",
            Operator::CloseRentDrop => "close_rent_drop",
            Operator::ComparisonFlip => "comparison_flip",
            Operator::UncheckedMath => "unchecked_math",
            Operator::ReallocCheckDrop => "realloc_check_drop",
            Operator::CloseReceiverSwap => "close_receiver_swap",
            Operator::ReinitZeroGuardDrop => "reinit_zero_guard_drop",
        }
    }

    /// The Solana audit bug class this operator models.
    pub fn bug_class(self) -> (s: &'static str)
        ensures
            s@ == operator_bug_class(self),
    {
        match self {
            Operator::SignerCheckRemoval => "missing signer validation",
            Operator::PdaSeedSwap => "wrong seeds, wrong account resolution",
            Operator::BumpMismatch => "using the wrong PDA bump",
            Operator::AuthorityCheckDrop => "missing owner/authority validation",
            Operator::DiscriminatorRemoval => "accepting wrong instruction discriminators",
            Operator::CpiTargetSwap => "calling the wrong program",
            Operator::CloseRentDrop => "accounts closed or rent-exempt not validated",
            Operator::ComparisonFlip => "boundary errors (off-by-one, wrong operator)",
            Operator::UncheckedMath => "silent arithmetic overflow (checked_* dropped)",
            Operator::ReallocCheckDrop => "unchecked account resize / re-init",
            Operator::CloseReceiverSwap => "lamports of a closed account sent to the wrong receiver",
            Operator::ReinitZeroGuardDrop => "account re-initialized with stale bytes",
        }
    }
}

/// A single injected fault: one operator applied at one location.
#[derive(Debug)]
pub struct Mutant {
    /// Stable index within the run.
    pub id: usize,
    /// Operator that produced this mutant.
    pub operator: Operator,
    /// Source file the change was made in (path relative to program root).
    pub file: String,
    /// 1-based line of the change.
    pub line: u32,
    /// The original source line (for the report).
    pub original: String,
    /// The mutated source line (for the report).
    pub mutated: String,
    /// Which instruction handler this change falls under (best-effort; may be
    /// empty if the tool could not attribute it).
    pub instruction: Option<String>,
}

/// The mathematical value of a [`Mutant`].
pub struct MutantView {
    pub id: usize,
    pub operator: Operator,
    pub file: Seq<char>,
    pub line: u32,
    pub original: Seq<char>,
    pub mutated: Seq<char>,
    pub instruction: Option<Seq<char>>,
}

/// The characters of an optional string.
pub open spec fn opt_view(o: Option<String>) -> Option<Seq<char>> {
    match o {
        Some(s) => Some(s@),
        None => None,
    }
}

/// A copy of an optional string.
pub fn clone_opt(o: &Option<String>) -> (r: Option<String>)
    ensures
        r == *o,
{
    match o {
        Some(s) => Some(s.clone()),
        None => None,
    }
}

impl View for Mutant {
    type V = MutantView;

    open spec fn view(&self) -> MutantView {
        MutantView {
            id: self.id,
            operator: self.operator,
            file: self.file@,
            line: self.line,
            original: self.original@,
            mutated: self.mutated@,
            instruction: opt_view(self.instruction),
        }
    }
}

impl Clone for Mutant {
    fn clone(&self) -> (r: Self)
        ensures
            r == *self,
    {
        Mutant {
            id: self.id,
            operator: self.operator,
            file: self.file.clone(),
            line: self.line,
            original: self.original.clone(),
            mutated: self.mutated.clone(),
            instruction: clone_opt(&self.instruction),
        }
    }
}

/// How the test suite fared against one mutant.
#[derive(Debug, Clone, Copy, PartialEq, Eq, Structural)]
pub enum Verdict {
    /// At least one test failed -> the change was caught.
    Killed,
    /// All tests passed -> the change survived. A real bug your tests miss.
    Survived,
    /// The mutant source did not compile.
    BuildFailed,
    /// The test run did not finish inside the timeout.
    TimedOut,
}

/// The machine id of a verdict.
pub open spec fn verdict_id(v: Verdict) -> Seq<char> {
    match v {
        Verdict::Killed => "killed"@,
        Verdict::Survived => "survived"@,
        Verdict::BuildFailed => "build-failed"@,
        Verdict::TimedOut => "timeout"@,
    }
}

impl Verdict {
    /// The machine id of this verdict.
    pub fn id(self) -> (s: &'static str)
        ensures
            s@ == verdict_id(self),
    {
        match self {
            Verdict::Killed => "killed",
            Verdict::Survived => "survived",
            Verdict::BuildFailed => "build-failed",
            Verdict::TimedOut => "timeout",
        }
    }
}

/// Outcome of executing one mutant.
#[derive(Debug)]
pub struct MutantResult {
    pub mutant: Mutant,
    pub verdict: Verdict,
    /// For killed mutants: number of failing tests and the first failure name.
    pub failing_tests: usize,
    pub first_failure: Option<String>,
    /// For survivors: an attacker exploit sketch.
    pub exploit: Option<String>,
    pub build_ms: u128,
    pub run_ms: u128,
}

impl Clone for MutantResult {
    fn clone(&self) -> (r: Self)
        ensures
            r == *self,
    {
        MutantResult {
            mutant: self.mutant.clone(),
            verdict: self.verdict,
            failing_tests: self.failing_tests,
            first_failure: clone_opt(&self.first_failure),
            exploit: clone_opt(&self.exploit),
            build_ms: self.build_ms,
            run_ms: self.run_ms,
        }
    }
}

impl Default for MutantResult {
    fn default() -> (r: Self)
        ensures
            r.mutant.id == 0,
            r.mutant.operator == Operator::SignerCheckRemoval,
            r.mutant.file@ == Seq::<char>::empty(),
            r.mutant.line == 0,
            r.mutant.original@ == Seq::<char>::empty(),
            r.mutant.mutated@ == Seq::<char>::empty(),
            r.mutant.instruction is None,
            r.verdict == Verdict::Killed,
            r.failing_tests == 0,
            r.first_failure is None,
            r.exploit is None,
            r.build_ms == 0,
            r.run_ms == 0,
    {
        MutantResult {
            mutant: Mutant {
                id: 0,
                operator: Operator::SignerCheckRemoval,
                file: String::new(),
                line: 0,
                original: String::new(),
                mutated: String::new(),
                instruction: None,
            },
            verdict: Verdict::Killed,
            failing_tests: 0,
            first_failure: None,
            exploit: None,
            build_ms: 0,
            run_ms: 0,
        }
    }
}

/// The two counts a mutation score is the ratio of: the verdicts that did
/// not escape (killed and build-failed) over all meaningful verdicts (killed,
/// survived and build-failed). Timeouts are inconclusive and count in
/// neither.
pub open spec fn score_counts(killed: usize, survived: usize, build_failed: usize) -> (int, int) {
    (killed + build_failed, killed + survived + build_failed)
}

/// Per-instruction aggregate.
#[derive(Debug)]
pub struct InstructionScore {
    pub instruction: String,
    pub killed: usize,
    pub survived: usize,
    pub build_failed: usize,
    pub timed_out: usize,
    pub total: usize,
}

impl Clone for InstructionScore {
    fn clone(&self) -> (r: Self)
        ensures
            r == *self,
    {
        InstructionScore {
            instruction: self.instruction.clone(),
            killed: self.killed,
            survived: self.survived,
            build_failed: self.build_failed,
            timed_out: self.timed_out,
            total: self.total,
        }
    }
}

impl InstructionScore {
    /// The numerator and denominator of this instruction's mutation score
    /// (the score is their ratio, and 0 when the denominator is 0).
    pub fn score_parts(&self) -> (r: (u128, u128))
        ensures
            (r.0 as int, r.1 as int) == score_counts(self.killed, self.survived, self.build_failed),
    {
        (
            self.killed as u128 + self.build_failed as u128,
            self.killed as u128 + self.survived as u128 + self.build_failed as u128,
        )
    }
}

/// The complete result of a run.
#[derive(Debug)]
pub struct Report {
    pub program: String,
    pub generated_at: String,
    pub mutants_total: usize,
    pub killed: usize,
    pub survived: usize,
    pub build_failed: usize,
    pub timed_out: usize,
    pub dropped_equivalent: usize,
    pub per_instruction: Vec<InstructionScore>,
    pub survivors: Vec<MutantResult>,
    pub mutants: Vec<MutantResult>,
}

impl Clone for Report {
    fn clone(&self) -> (r: Self)
        ensures
            r.program == self.program,
            r.generated_at == self.generated_at,
            r.mutants_total == self.mutants_total,
            r.killed == self.killed,
            r.survived == self.survived,
            r.build_failed == self.build_failed,
            r.timed_out == self.timed_out,
            r.dropped_equivalent == self.dropped_equivalent,
            r.per_instruction@ == self.per_instruction@,
            r.survivors@ == self.survivors@,
            r.mutants@ == self.mutants@,
    {
        let per_instruction = self.per_instruction.clone();
        assert(per_instruction@ =~= self.per_instruction@);
        let survivors = self.survivors.clone();
        assert(survivors@ =~= self.survivors@);
        let mutants = self.mutants.clone();
        assert(mutants@ =~= self.mutants@);
        Report {
            program: self.program.clone(),
            generated_at: self.generated_at.clone(),
            mutants_total: self.mutants_total,
            killed: self.killed,
            survived: self.survived,
            build_failed: self.build_failed,
            timed_out: self.timed_out,
            dropped_equivalent: self.dropped_equivalent,
            per_instruction,
            survivors,
            mutants,
        }
    }
}

impl Report {
    /// The numerator and denominator of the overall mutation score: the same
    /// rule as [`InstructionScore::score_parts`].
    pub fn score_parts(&self) -> (r: (u128, u128))
        ensures
            (r.0 as int, r.1 as int) == score_counts(self.killed, self.survived, self.build_failed),
    {
        (
            self.killed as u128 + self.build_failed as u128,
            self.killed as u128 + self.survived as u128 + self.build_failed as u128,
        )
    }

    /// Whether the run produced no mutant at all.
    pub fn is_empty(&self) -> (b: bool)
        ensures
            b == (self.mutants_total == 0),
    {
        self.mutants_total == 0
    }
}

/// A score whose meaningful count is zero is zero, never a vacuous full
/// score: when every verdict timed out, nothing did not escape either.
pub proof fn law_all_inconclusive_scores_zero(killed: usize, survived: usize, build_failed: usize)
    requires
        score_counts(killed, survived, build_failed).1 == 0,
    ensures
        score_counts(killed, survived, build_failed).0 == 0,
{
}

/// The non-escaping count never exceeds the meaningful count, so the score
/// lies between 0 and 1.
pub proof fn law_score_at_most_one(killed: usize, survived: usize, build_failed: usize)
    ensures
        0 <= score_counts(killed, survived, build_failed).0 <= score_counts(
            killed,
            survived,
            build_failed,
        ).1,
{
}

} // verus!
