//! What the outcome of each step of a mutant's run means for the mutant.

use mutanchor::model::{Mutant, Operator, Verdict};
use mutanchor::runner::{
    apply_mutant, build_result, exploit_for, mutant_result, parse_failures, program_so_name,
    skipped_entry, so_name_for, tail, test_outcome, BuildOutcome, BuildResult,
};

fn sample_mutant(op: Operator) -> Mutant {
    Mutant {
        id: 3,
        operator: op,
        file: "src/lib.rs".to_string(),
        line: 2,
        original: "require!(a > b);".to_string(),
        mutated: "require!(a >= b);".to_string(),
        instruction: Some("deposit".to_string()),
    }
}

#[test]
fn tail_keeps_the_last_lines() {
    assert_eq!(tail("a\nb\nc\nd", 2), "c\nd");
    assert_eq!(tail("a\r\nb\n", 5), "a\nb");
    assert_eq!(tail("", 3), "");
    assert_eq!(tail("x\ny", 0), "");
}

#[test]
fn parse_failures_reads_the_last_summary_and_first_panic() {
    let out = "running 3 tests\n\
               test a ... ok\n\
               thread 'b' panicked at src/lib.rs:4:5:\n\
               test result: FAILED. 1 passed; 2 failed; 0 ignored; 0 measured\n\
               thread 'c' panicked at other\n";
    let (n, first) = parse_failures(out);
    assert_eq!(n, 2);
    assert_eq!(first.as_deref(), Some("thread 'b' panicked at src/lib.rs:4:5:"));
    let (n, first) = parse_failures("test result: ok. 3 passed; 0 failed\n");
    assert_eq!(n, 0);
    assert_eq!(first, None);
    // A later failing summary wins; a number that does not fit is ignored.
    let (n, _) = parse_failures(
        "test result: FAILED. 0 passed; 4 failed\n   test result: FAILED. 1 passed; +7 failed; x\n",
    );
    assert_eq!(n, 7);
    let (n, _) = parse_failures("test result: FAILED. 99999999999999999999999 failed\n");
    assert_eq!(n, 0);
    let (n, _) = parse_failures("test result: FAILED. ; failed\n");
    assert_eq!(n, 0);
}

#[test]
fn test_outcome_kills_on_failure_or_panic() {
    let killed = test_outcome(Some(101), false, "test result: FAILED. 0 passed; 1 failed\n");
    assert_eq!(killed.verdict, Verdict::Killed);
    assert_eq!(killed.failing_tests, 1);
    let panicked = test_outcome(Some(101), false, "thread 'main' panicked at x\n");
    assert_eq!(panicked.verdict, Verdict::Killed);
    assert_eq!(panicked.first_failure.as_deref(), Some("thread 'main' panicked at x"));
    let survived = test_outcome(Some(0), true, "test result: ok. 5 passed; 0 failed\n");
    assert_eq!(survived.verdict, Verdict::Survived);
    assert_eq!(survived.failing_tests, 0);
}

#[test]
fn build_result_tells_timeouts_from_failures() {
    assert!(matches!(build_result(Some(0), true, "ok"), BuildResult::Built));
    assert!(matches!(build_result(None, false, ""), BuildResult::TimedOut));
    match build_result(Some(101), false, "a\nb\nerror: boom  \n") {
        BuildResult::Failed(why) => {
            assert_eq!(why, "cargo build-sbf exited 101 — tail:\na\nb\nerror: boom");
        }
        _ => panic!("a non-zero exit is a failure"),
    }
    match build_result(Some(-2), false, "x") {
        BuildResult::Failed(why) => assert_eq!(why, "cargo build-sbf exited -2 — tail:\nx"),
        _ => panic!("a non-zero exit is a failure"),
    }
    let long: String = (1..=20).map(|i| format!("l{i}\n")).collect();
    match build_result(Some(1), false, &long) {
        BuildResult::Failed(why) => {
            assert!(why.ends_with("tail:\nl10\nl11\nl12\nl13\nl14\nl15\nl16\nl17\nl18\nl19\nl20"));
        }
        _ => panic!("a non-zero exit is a failure"),
    }
}

#[test]
fn mutant_result_follows_each_step() {
    let m = sample_mutant(Operator::ComparisonFlip);
    let r = mutant_result(&m, &Err("disk full".to_string()), &None, &None);
    assert_eq!(r.verdict, Verdict::BuildFailed);
    assert_eq!(r.first_failure.as_deref(), Some("scratch write failed: disk full"));
    assert_eq!((r.build_ms, r.run_ms), (0, 0));
    assert_eq!((r.mutant.id, r.mutant.line), (3, 2));
    assert_eq!(r.mutant.mutated, m.mutated);

    let r = mutant_result(&m, &Ok(()), &Some((BuildResult::Failed("e".to_string()), 9)), &None);
    assert_eq!(r.verdict, Verdict::BuildFailed);
    assert_eq!(r.first_failure.as_deref(), Some("cargo build-sbf failed: e"));
    assert_eq!((r.build_ms, r.run_ms), (9, 0));

    let r = mutant_result(&m, &Ok(()), &Some((BuildResult::TimedOut, 9)), &None);
    assert_eq!(r.verdict, Verdict::TimedOut);
    assert_eq!(r.first_failure.as_deref(), Some("cargo build-sbf timed out"));

    let r = mutant_result(
        &m,
        &Ok(()),
        &Some((BuildResult::Built, 4)),
        &Some((Err("spawn".to_string()), 6)),
    );
    assert_eq!(r.verdict, Verdict::TimedOut);
    assert_eq!(r.first_failure.as_deref(), Some("test run failed: spawn"));
    assert_eq!((r.build_ms, r.run_ms), (4, 6));

    let killed = BuildOutcome {
        verdict: Verdict::Killed,
        failing_tests: 2,
        first_failure: Some("boom".to_string()),
    };
    let r = mutant_result(&m, &Ok(()), &Some((BuildResult::Built, 4)), &Some((Ok(killed), 6)));
    assert_eq!(r.verdict, Verdict::Killed);
    assert_eq!(r.failing_tests, 2);
    assert_eq!(r.first_failure.as_deref(), Some("boom"));
    assert_eq!(r.exploit, None);

    let survived = BuildOutcome { verdict: Verdict::Survived, failing_tests: 0, first_failure: None };
    let r = mutant_result(&m, &Ok(()), &Some((BuildResult::Built, 4)), &Some((Ok(survived), 6)));
    assert_eq!(r.verdict, Verdict::Survived);
    assert_eq!(r.exploit.as_deref(), Some(exploit_for(Operator::ComparisonFlip)));
}

#[test]
fn a_test_run_killed_at_the_timeout_is_inconclusive() {
    let timed_out = test_outcome(None, false, "");
    assert_eq!(timed_out.verdict, Verdict::TimedOut);
    assert_eq!(timed_out.failing_tests, 0);
    assert_eq!(timed_out.first_failure.as_deref(), Some("cargo test timed out"));
    let m = sample_mutant(Operator::ComparisonFlip);
    let r = mutant_result(&m, &Ok(()), &Some((BuildResult::Built, 4)), &Some((Ok(timed_out), 6)));
    assert_eq!(r.verdict, Verdict::TimedOut);
    assert_eq!(r.exploit, None);
    assert_eq!(r.mutant.id, m.id);
}

#[test]
fn exploit_sketches_differ_by_operator() {
    assert!(exploit_for(Operator::SignerCheckRemoval).contains("unauthorised signer"));
    assert!(exploit_for(Operator::UncheckedMath).contains("checked_add"));
    assert_ne!(exploit_for(Operator::CloseReceiverSwap), exploit_for(Operator::ReinitZeroGuardDrop));
}

#[test]
fn apply_mutant_replaces_one_line() {
    assert_eq!(apply_mutant("a\nb\nc\n", 2, "B"), "a\nB\nc");
    assert_eq!(apply_mutant("a\r\nb", 1, "A"), "A\nb");
    assert_eq!(apply_mutant("a\nb", 0, "A"), "A\nb");
    assert_eq!(apply_mutant("a\nb", 9, "Z"), "a\nb");
    // Only the mutant's line differs.
    let src = "fn f() {\n    require!(a > b);\n}\n";
    let out = apply_mutant(src, 2, "    require!(a >= b);");
    let before: Vec<&str> = src.lines().collect();
    let after: Vec<&str> = out.lines().collect();
    assert_eq!(before.len(), after.len());
    let changed: Vec<usize> = (0..before.len()).filter(|&i| before[i] != after[i]).collect();
    assert_eq!(changed, vec![1]);
}

#[test]
fn so_name_follows_the_package_name() {
    assert_eq!(so_name_for(&Some("demo-vault".to_string())), "demo_vault.so");
    assert_eq!(so_name_for(&None), "program.so");
    let manifest = Some("[package]\nname = \"my-prog\"\n".to_string());
    assert_eq!(program_so_name(&manifest), "my_prog.so");
    assert_eq!(program_so_name(&Some("not toml [".to_string())), "program.so");
    assert_eq!(program_so_name(&None), "program.so");
}

#[test]
fn copies_leave_build_and_tool_directories_out() {
    for name in ["target", ".git", "node_modules", ".anchor"] {
        assert!(skipped_entry(name));
    }
    for name in ["src", "tests", "Cargo.toml", "targets"] {
        assert!(!skipped_entry(name));
    }
}
