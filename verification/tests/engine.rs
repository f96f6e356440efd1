//! Keeping mutants, aggregating verdicts, naming the program, timestamps and
//! the CI gate.

use mutanchor::engine::{
    build_report, ci_verdict, collect_mutants, dedup_equivalents, format_epoch, init_name,
    name_or_fallback, skip_operators,
};
use mutanchor::model::{Mutant, MutantResult, Operator, Verdict};

fn mutant(id: usize, op: Operator, line: u32, original: &str, mutated: &str) -> Mutant {
    Mutant {
        id,
        operator: op,
        file: "src/lib.rs".to_string(),
        line,
        original: original.to_string(),
        mutated: mutated.to_string(),
        instruction: None,
    }
}

fn result(instruction: Option<&str>, verdict: Verdict) -> MutantResult {
    let mut r = MutantResult::default();
    r.mutant.instruction = instruction.map(|s| s.to_string());
    r.verdict = verdict;
    r
}

#[test]
fn ci_fails_only_when_survivors_exceed_max() {
    assert!(!ci_verdict(0, 0), "0 survivors with max 0 must pass");
    assert!(!ci_verdict(1, 1), "at max must pass");
    assert!(!ci_verdict(0, 1), "under max must pass");
    assert!(ci_verdict(2, 1), "over max must fail");
    assert!(ci_verdict(3, 0), "any survivor with max 0 must fail");
}

#[test]
fn dedup_drops_skipped_meaningless_and_duplicate_mutants() {
    let ms = vec![
        mutant(0, Operator::ComparisonFlip, 3, "a > b", "a >= b"),
        mutant(1, Operator::ComparisonFlip, 3, "a > b", "a >= b"),
        mutant(2, Operator::BumpMismatch, 4, "  bump ", "bump"),
        mutant(3, Operator::PdaSeedSwap, 5, "x", "y"),
        mutant(4, Operator::ComparisonFlip, 3, "a > b", "a < b"),
    ];
    let (kept, dropped) = dedup_equivalents(ms, &[Operator::PdaSeedSwap]);
    assert_eq!(dropped, 3);
    assert_eq!(kept.len(), 2);
    assert_eq!(kept[0].id, 0);
    assert_eq!(kept[0].mutated, "a >= b");
    assert_eq!(kept[1].id, 1);
    assert_eq!(kept[1].mutated, "a < b");
    // Keys of the kept mutants are distinct (the dedup law on values).
    assert_ne!(
        (kept[0].operator, kept[0].line, kept[0].mutated.clone()),
        (kept[1].operator, kept[1].line, kept[1].mutated.clone())
    );
}

#[test]
fn dedup_compares_file_line_and_text_apart() {
    let mut a = mutant(0, Operator::ComparisonFlip, 1, "x > y", "2:b");
    a.file = "a".to_string();
    let mut b = mutant(1, Operator::ComparisonFlip, 2, "x > y", "b");
    b.file = "a:1".to_string();
    let (kept, dropped) = dedup_equivalents(vec![a, b], &[]);
    assert_eq!(dropped, 0);
    assert_eq!(kept.len(), 2);
    assert_eq!(kept[1].file, "a:1");
}

#[test]
fn dedup_a_second_time_drops_nothing() {
    let ms = vec![
        mutant(0, Operator::ComparisonFlip, 1, "a > b", "a >= b"),
        mutant(1, Operator::ComparisonFlip, 1, "a > b", "a >= b"),
        mutant(2, Operator::UncheckedMath, 2, "x", "x"),
        mutant(3, Operator::BumpMismatch, 3, "bump", "bump + 1"),
    ];
    let (kept, dropped) = dedup_equivalents(ms, &[]);
    assert_eq!(dropped, 2);
    let (again, dropped_again) = dedup_equivalents(kept.clone(), &[]);
    assert_eq!(dropped_again, 0);
    assert_eq!(again.len(), kept.len());
    for (x, y) in again.iter().zip(kept.iter()) {
        assert_eq!(x.id, y.id);
        assert_eq!(x.operator, y.operator);
        assert_eq!(x.line, y.line);
        assert_eq!(x.mutated, y.mutated);
    }
}

#[test]
fn build_report_counts_verdicts_and_sorts_instructions() {
    let results = vec![
        result(Some("withdraw"), Verdict::Killed),
        result(Some("deposit"), Verdict::Survived),
        result(None, Verdict::TimedOut),
        result(Some("deposit"), Verdict::BuildFailed),
        result(Some("deposit"), Verdict::Killed),
    ];
    let r = build_report("demo".to_string(), "2026-01-01T00:00:00Z".to_string(), &results, 7);
    assert_eq!(r.program, "demo");
    assert_eq!(r.generated_at, "2026-01-01T00:00:00Z");
    assert_eq!(r.mutants_total, 5);
    assert_eq!((r.killed, r.survived, r.build_failed, r.timed_out), (2, 1, 1, 1));
    // Every result has exactly one verdict.
    assert_eq!(r.killed + r.survived + r.build_failed + r.timed_out, r.mutants_total);
    assert_eq!(r.dropped_equivalent, 7);
    let names: Vec<&str> = r.per_instruction.iter().map(|s| s.instruction.as_str()).collect();
    assert_eq!(names, vec!["(unknown)", "deposit", "withdraw"]);
    let dep = &r.per_instruction[1];
    assert_eq!((dep.killed, dep.survived, dep.build_failed, dep.timed_out, dep.total), (1, 1, 1, 0, 3));
    // The per-instruction table accounts for every mutant exactly once.
    assert_eq!(r.per_instruction.iter().map(|s| s.total).sum::<usize>(), r.mutants_total);
    assert_eq!(r.survivors.len(), r.survived);
    assert_eq!(r.survivors[0].mutant.instruction.as_deref(), Some("deposit"));
    assert_eq!(r.mutants.len(), 5);
}

#[test]
fn empty_run_builds_an_empty_report() {
    let r = build_report("p".to_string(), "t".to_string(), &[], 0);
    assert!(r.is_empty());
    assert!(r.per_instruction.is_empty());
    assert_eq!(r.score_parts(), (0, 0));
}

#[test]
fn skip_values_name_operators_by_id_or_name() {
    let skip = vec![
        "comparison_flip".to_string(),
        "PdaSeedSwap".to_string(),
        "BUMP_MISMATCH".to_string(),
        "no_such_operator".to_string(),
        "uncheckedmath".to_string(),
    ];
    assert_eq!(
        skip_operators(&skip),
        vec![
            Operator::ComparisonFlip,
            Operator::PdaSeedSwap,
            Operator::BumpMismatch,
            Operator::UncheckedMath
        ]
    );
}

#[test]
fn collect_mutants_spans_files_and_renumbers() {
    let files = vec![
        ("src/lib.rs".to_string(), "require!(amount > 0, E::Zero);\n".to_string()),
        ("src/other.rs".to_string(), "require!(x < y, E::Bad);\n".to_string()),
    ];
    let (ms, dropped) = collect_mutants(&files, &[], &[]);
    assert_eq!(dropped, 0);
    assert_eq!(ms.len(), 2);
    assert_eq!(ms[0].file, "src/lib.rs");
    assert_eq!(ms[0].mutated, "require!(amount >= 0, E::Zero);");
    assert_eq!(ms[1].file, "src/other.rs");
    assert_eq!(ms[1].id, 1);
    let (none, dropped) = collect_mutants(&files, &[], &[Operator::ComparisonFlip]);
    assert!(none.is_empty());
    assert_eq!(dropped, 2);
}

#[test]
fn trailing_whitespace_keeps_the_indent_and_one_change() {
    let files = vec![("src/lib.rs".to_string(), "    a > b  \n".to_string())];
    let (ms, dropped) = collect_mutants(&files, &[], &[]);
    assert_eq!(dropped, 0);
    assert_eq!(ms.len(), 1);
    assert_eq!(ms[0].operator, Operator::ComparisonFlip);
    assert_eq!(ms[0].line, 1);
    assert_eq!(ms[0].original, "    a > b  ");
    assert_eq!(ms[0].mutated.trim_end(), "    a >= b");
}

#[test]
fn lines_with_wide_characters_are_handled() {
    let files = vec![
        ("src/lib.rs".to_string(), "€ > b\u{85}\n".to_string()),
        ("src/two.rs".to_string(), "é > 0 \n".to_string()),
    ];
    let (ms, _) = collect_mutants(&files, &[], &[]);
    assert_eq!(ms.len(), 2);
    assert_eq!(ms[0].mutated, "€ >= b");
    assert_eq!(ms[1].mutated, "é >= 0");
}

#[test]
fn format_epoch_writes_civil_utc_timestamps() {
    assert_eq!(format_epoch(0), "1970-01-01T00:00:00Z");
    assert_eq!(format_epoch(86_399), "1970-01-01T23:59:59Z");
    assert_eq!(format_epoch(951_782_400), "2000-02-29T00:00:00Z");
    assert_eq!(format_epoch(1_709_164_800), "2024-02-29T00:00:00Z");
    assert_eq!(format_epoch(1_735_689_599), "2024-12-31T23:59:59Z");
    assert_eq!(format_epoch(4_102_444_800), "2100-01-01T00:00:00Z");
    assert_eq!(format_epoch(253_402_300_800), "10000-01-01T00:00:00Z");
    // Consecutive days give consecutive dates across a leap February.
    assert_eq!(format_epoch(951_696_000), "2000-02-28T00:00:00Z");
    assert_eq!(format_epoch(951_868_800), "2000-03-01T00:00:00Z");
    assert_eq!(format_epoch(4_107_456_000), "2100-02-28T00:00:00Z");
    assert_eq!(format_epoch(4_107_542_400), "2100-03-01T00:00:00Z");
}

#[test]
fn program_name_prefers_the_manifest_package() {
    let manifest = Some("[package]\nname = \"demo-vault\"\nversion = \"0.1.0\"\n".to_string());
    assert_eq!(init_name(&manifest, Some("dir".to_string())), "demo-vault");
    let no_package = Some("[workspace]\nmembers = []\n".to_string());
    assert_eq!(init_name(&no_package, Some("dir".to_string())), "dir");
    let broken = Some("[package\nname=".to_string());
    assert_eq!(init_name(&broken, None), "program");
    assert_eq!(init_name(&None, Some("vault".to_string())), "vault");
    assert_eq!(name_or_fallback(Some("a".to_string()), Some("b".to_string())), "a");
    assert_eq!(name_or_fallback(None, None), "program");
}

#[test]
fn timestamps_keep_their_width_and_order() {
    let times: [u64; 7] = [
        0,
        59,
        86_399,
        951_782_400,
        1_735_689_599,
        4_102_444_800,
        253_402_300_799,
    ];
    for t in times {
        assert_eq!(format_epoch(t).len(), 20);
    }
    for w in times.windows(2) {
        assert!(format_epoch(w[0]) < format_epoch(w[1]));
    }
    assert_eq!(format_epoch(253_402_300_799), "9999-12-31T23:59:59Z");
}
