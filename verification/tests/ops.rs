//! The operators, one rule at a time, on small Anchor source snippets.

use mutanchor::model::{Mutant, Operator};
use mutanchor::ops::generate;

fn mutants_for(source: &str, op: Operator) -> Vec<Mutant> {
    generate(source, "src/lib.rs", &[])
        .into_iter()
        .filter(|m| m.operator == op)
        .collect()
}

/// The small fixture program the operators are exercised on.
const FIXTURE: &str = r#"//! A minimal Anchor program used to exercise and unit-test the Mutanchor
//! engine. Deliberately small and full of the audit-relevant patterns the
//! operators target: signer checks, authority checks, PDA seeds + bump, and a
//! boundary comparison. This file is a fixture — the real demo program is in
//! `demo/demo-vault`.

use anchor_lang::prelude::*;

declare_id!("FIXTUR11111111111111111111111111111111111111");

#[program]
pub mod fixture_vault {
    use super::*;

    /// Deposit lamports into a PDA vault owned by the caller's authority.
    pub fn deposit(ctx: Context<Deposit>, amount: u64) -> Result<()> {
        require!(amount > 0, FixtureError::ZeroAmount);
        // AUTHORITY CHECK: only the vault owner may deposit.
        require!(
            ctx.accounts.authority.key() == ctx.accounts.vault.owner,
            FixtureError::Unauthorized
        );
        // SIGNER CHECK happens via the Signer<'_> account type.
        let vault: &mut Account<'_, Vault> = &mut ctx.accounts.vault;
        vault.balance += amount;
        Ok(())
    }

    /// Withdraw, but only up to the recorded balance (boundary check).
    pub fn withdraw(ctx: Context<Withdraw>, amount: u64) -> Result<()> {
        require!(amount <= ctx.accounts.vault.balance, FixtureError::Insufficient);
        let vault: &mut Account<'_, Vault> = &mut ctx.accounts.vault;
        vault.balance -= amount;
        Ok(())
    }
}

#[derive(Accounts)]
pub struct Deposit<'info> {
    #[account(
        mut,
        seeds = [b"vault", authority.key().as_ref()],
        bump
    )]
    pub vault: Account<'info, Vault>,
    /// SIGNER CHECK: this field requires the caller to be a signer.
    pub authority: Signer<'info>,
}

#[derive(Accounts)]
pub struct Withdraw<'info> {
    #[account(
        mut,
        seeds = [b"vault", authority.key().as_ref()],
        bump,
        close = authority
    )]
    pub vault: Account<'info, Vault>,
    pub authority: Signer<'info>,
}

#[account]
pub struct Vault {
    pub owner: Pubkey,
    pub balance: u64,
}

#[error_code]
pub enum FixtureError {
    #[msg("amount must be greater than zero")]
    ZeroAmount,
    #[msg("unauthorized")]
    Unauthorized,
    #[msg("insufficient balance")]
    Insufficient,
}
"#;

#[test]
fn signer_check_removal_fires_on_signer_constraint() {
    let src2 = r#"
struct Ctx<'info> {
    #[account(signer, mut)]
    pub authority: Account<'info, Data>,
}
"#;
    let m = mutants_for(src2, Operator::SignerCheckRemoval);
    assert!(!m.is_empty(), "signer constraint should produce a mutant");
    assert!(m.iter().all(|x| !x.mutated.contains("signer")));
}

#[test]
fn authority_check_drop_fires_on_authority_require() {
    let src = "require!(ctx.accounts.vault.owner == ctx.accounts.authority.key(), Error::Unauthorized);";
    let m = mutants_for(src, Operator::AuthorityCheckDrop);
    assert!(!m.is_empty(), "authority require should produce a mutant");
    assert!(m[0].mutated.contains("ORIGINAL CHECK REMOVED"));
}

#[test]
fn pda_seed_swap_rewrites_seed() {
    let src = "#[account(seeds = [b\"vault\", authority.key().as_ref()], bump)]";
    let m = mutants_for(src, Operator::PdaSeedSwap);
    assert_eq!(m.len(), 1, "exactly one seed-swap mutant");
    assert!(m[0].mutated.contains("__mut_vault"));
}

#[test]
fn bump_mismatch_offsets_bump() {
    let src = "pub fn derive() { let (p, bump) = Pubkey::find_program_address(&[b\"v\"], &id()); let _ = p; let _ = bump; }";
    let m = mutants_for(src, Operator::BumpMismatch);
    assert!(m.iter().any(|x| x.mutated.contains("bump + 1")));
}

#[test]
fn discriminator_removal_fires_on_guard() {
    let src = "require!(data.discriminator == DISCRIMINATOR, Error::BadDiscriminator);";
    let m = mutants_for(src, Operator::DiscriminatorRemoval);
    assert!(!m.is_empty());
    assert!(m[0].mutated.contains("DISCRIMINATOR CHECK REMOVED"));
}

#[test]
fn cpi_target_swap_rewrites_cpi_path() {
    let src = "token_program::cpi::transfer(ctx.accounts.ctx(), amount)?;";
    let m = mutants_for(src, Operator::CpiTargetSwap);
    assert!(!m.is_empty());
    assert!(m[0].mutated.contains("_mutant::cpi::"));
}

#[test]
fn close_rent_drop_removes_close() {
    let src2 = "#[account(mut, seeds = [b\"v\"], bump, close = authority)]";
    let m2 = mutants_for(src2, Operator::CloseRentDrop);
    assert!(!m2.is_empty());
    assert!(m2[0].mutated.contains("close removed"));
}

#[test]
fn comparison_flip_inverts_boundary() {
    let src = "require!(amount > 0, Error::Zero);";
    let m = mutants_for(src, Operator::ComparisonFlip);
    assert!(!m.is_empty());
    assert!(m.iter().any(|x| x.mutated.contains(">=")));
}

#[test]
fn comparison_flip_does_not_touch_generic_type_arrows() {
    let src = "let vault: &mut Account<'_, Vault> = &mut ctx.accounts.vault;";
    let m = mutants_for(src, Operator::ComparisonFlip);
    assert!(
        m.is_empty(),
        "generic type syntax must not be mutated, got: {m:?}"
    );
}

#[test]
fn comparison_flip_does_not_touch_function_signature_return_arrow() {
    // Multi-line handler signatures put the return arrow on its own line
    // (`) -> Result<()> {`); its `>` inside `Result<()>` is no comparison.
    let src = "    ) -> Result<()> {";
    let m = mutants_for(src, Operator::ComparisonFlip);
    assert!(
        m.is_empty(),
        "function-signature return arrow must not be mutated, got: {m:?}"
    );
}

#[test]
fn unchecked_math_replaces_checked_add_with_plus() {
    let src = "vault.balance = vault.balance.checked_add(amount).ok_or(E::Overflow)?;";
    let m = mutants_for(src, Operator::UncheckedMath);
    assert!(!m.is_empty(), "checked_add should be mutated");
    assert!(
        m[0].mutated.contains("vault.balance + amount"),
        "got: {}",
        m[0].mutated
    );
    assert!(
        !m[0].mutated.contains("checked_add"),
        "checked_add must be gone, got: {}",
        m[0].mutated
    );
}

#[test]
fn unchecked_math_handles_checked_sub_and_mul() {
    let src_sub = "a.checked_sub(b).ok_or(E::Underflow)?;";
    let src_mul = "x.checked_mul(scale).ok_or(E::Overflow)?;";
    let m_sub = mutants_for(src_sub, Operator::UncheckedMath);
    let m_mul = mutants_for(src_mul, Operator::UncheckedMath);
    assert!(
        m_sub[0].mutated.contains("a - b"),
        "sub: {}",
        m_sub[0].mutated
    );
    assert!(
        m_mul[0].mutated.contains("x * scale"),
        "mul: {}",
        m_mul[0].mutated
    );
}

#[test]
fn realloc_check_drop_removes_realloc_constraint() {
    let src = r#"    #[account(mut, realloc = 8 + Vault::INIT_SPACE, realloc::payer = authority, realloc::zero = false)]"#;
    let m = mutants_for(src, Operator::ReallocCheckDrop);
    assert!(!m.is_empty(), "realloc constraint should be mutated");
    assert!(
        !m[0].mutated.contains("realloc = 8"),
        "realloc size guard must be dropped, got: {}",
        m[0].mutated
    );
}

#[test]
fn realloc_check_drop_removes_size_require() {
    let src = "        require!(account.data_len() >= 8 + Vault::INIT_SPACE, E::TooSmall);";
    let m = mutants_for(src, Operator::ReallocCheckDrop);
    assert!(!m.is_empty(), "size-check require! should be mutated");
    assert!(
        m[0].mutated.contains("SIZE CHECK REMOVED"),
        "got: {}",
        m[0].mutated
    );
}

#[test]
fn close_receiver_swap_retargets_receiver() {
    let src = r#"    #[account(mut, seeds = [b"vault"], bump, close = authority)]"#;
    let m = mutants_for(src, Operator::CloseReceiverSwap);
    assert!(!m.is_empty(), "close = authority should be mutated");
    assert!(
        m[0].mutated.contains("close = attacker"),
        "got: {}",
        m[0].mutated
    );
    assert!(
        !m[0].mutated.contains("close = authority"),
        "original receiver must be gone, got: {}",
        m[0].mutated
    );
}

#[test]
fn reinit_zero_guard_drop_flips_true_to_false() {
    let src = r#"    #[account(mut, realloc = 8 + INIT_SPACE, realloc::payer = authority, realloc::zero = true)]"#;
    let m = mutants_for(src, Operator::ReinitZeroGuardDrop);
    assert!(!m.is_empty(), "realloc::zero = true should be mutated");
    assert!(
        m[0].mutated.contains("realloc::zero = false"),
        "got: {}",
        m[0].mutated
    );
}

#[test]
fn one_fault_per_mutant_holds() {
    let muts = generate(FIXTURE, "src/lib.rs", &[]);
    assert!(!muts.is_empty(), "fixture should produce mutants");
    for m in &muts {
        assert_ne!(
            m.original, m.mutated,
            "mutant must actually change the line"
        );
    }
}

#[test]
fn comparison_flip_changes_the_comparison_not_the_generic() {
    let src = "if size_of::<Vault>() > len {\n";
    let ms = generate(src, "src/lib.rs", &[]);
    let flips: Vec<&Mutant> = ms.iter().filter(|m| m.operator == Operator::ComparisonFlip).collect();
    assert_eq!(flips.len(), 1);
    assert_eq!(flips[0].line, 1);
    assert_eq!(flips[0].original, "if size_of::<Vault>() > len {");
    assert_eq!(flips[0].mutated, "if size_of::<Vault>() >= len {");
    assert_eq!(flips[0].instruction, None);
}

#[test]
fn the_same_input_gives_the_same_mutants() {
    let src = "require!(amount > 0, E::Zero);\nlet x = a.checked_add(b).unwrap();\n";
    let a = generate(src, "src/lib.rs", &[]);
    let b = generate(src, "src/lib.rs", &[]);
    assert_eq!(a.len(), b.len());
    for (x, y) in a.iter().zip(b.iter()) {
        assert_eq!((x.id, x.operator, x.line), (y.id, y.operator, y.line));
        assert_eq!((&x.file, &x.original, &x.mutated), (&y.file, &y.original, &y.mutated));
    }
}
