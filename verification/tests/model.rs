//! The data model: operator and verdict ids, defaults and score counts.

use mutanchor::model::{InstructionScore, MutantResult, Operator, Verdict};

#[test]
fn operator_ids_and_bug_classes_are_stable() {
    assert_eq!(Operator::ALL.len(), 12);
    let ids: Vec<&str> = Operator::ALL.iter().map(|o| o.id()).collect();
    assert_eq!(
        ids,
        vec![
            "signer_check_removal",
            "pda_seed_swap",
            "bump_mismatch",
            "authority_check_drop",
            "discriminator_removal",
            "cpi_target_swap",
            "close_rent_drop",
            "comparison_flip",
            "unchecked_math",
            "realloc_check_drop",
            "close_receiver_swap",
            "reinit_zero_guard_drop",
        ]
    );
    // An id is the operator's name with underscores, in lower case.
    for op in Operator::ALL {
        assert_eq!(format!("{op:?}").to_lowercase(), op.id().replace('_', ""));
    }
    assert_eq!(Operator::BumpMismatch.bug_class(), "using the wrong PDA bump");
    assert_eq!(Operator::PdaSeedSwap.bug_class(), "wrong seeds, wrong account resolution");
    assert_eq!(
        Operator::UncheckedMath.bug_class(),
        "silent arithmetic overflow (checked_* dropped)"
    );
}

#[test]
fn bug_classes_follow_the_operator_table() {
    assert_eq!(Operator::SignerCheckRemoval.bug_class(), "missing signer validation");
    assert_eq!(Operator::AuthorityCheckDrop.bug_class(), "missing owner/authority validation");
    assert_eq!(
        Operator::DiscriminatorRemoval.bug_class(),
        "accepting wrong instruction discriminators"
    );
    assert_eq!(Operator::CpiTargetSwap.bug_class(), "calling the wrong program");
    assert_eq!(
        Operator::CloseRentDrop.bug_class(),
        "accounts closed or rent-exempt not validated"
    );
    assert_eq!(
        Operator::ComparisonFlip.bug_class(),
        "boundary errors (off-by-one, wrong operator)"
    );
    for (i, a) in Operator::ALL.iter().enumerate() {
        for b in Operator::ALL.iter().skip(i + 1) {
            assert_ne!(a.bug_class(), b.bug_class());
        }
    }
}

#[test]
fn verdict_ids() {
    assert_eq!(Verdict::Killed.id(), "killed");
    assert_eq!(Verdict::Survived.id(), "survived");
    assert_eq!(Verdict::BuildFailed.id(), "build-failed");
    assert_eq!(Verdict::TimedOut.id(), "timeout");
}

#[test]
fn default_result_is_an_empty_killed_mutant() {
    let r = MutantResult::default();
    assert_eq!(r.verdict, Verdict::Killed);
    assert_eq!(r.mutant.operator, Operator::SignerCheckRemoval);
    assert_eq!((r.mutant.id, r.mutant.line, r.failing_tests), (0, 0, 0));
    assert!(r.mutant.file.is_empty() && r.mutant.instruction.is_none());
    assert!(r.exploit.is_none() && r.first_failure.is_none());
}

#[test]
fn score_counts_leave_timeouts_out() {
    let s = InstructionScore {
        instruction: "x".to_string(),
        killed: 3,
        survived: 1,
        build_failed: 2,
        timed_out: 9,
        total: 15,
    };
    assert_eq!(s.score_parts(), (5, 6));
    let none = InstructionScore {
        instruction: "y".to_string(),
        killed: 0,
        survived: 0,
        build_failed: 0,
        timed_out: 4,
        total: 4,
    };
    assert_eq!(none.score_parts(), (0, 0));
}
