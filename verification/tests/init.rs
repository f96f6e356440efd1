//! Attributing line ranges of a program's source to its instructions, and
//! choosing the program directory of a project.

use mutanchor::init::{
    find_instructions, find_program_dir, instructions_from_outline, outline, ArgOutline, FnOutline,
    InnerOutline, ItemOutline, ProgramDir, StructOutline,
};

// A minimal Anchor program: one handler + one Accounts struct.
// Note: the struct's constraint lines come AFTER the handler in the
// file, so only a working Context<> union attributes them correctly.
const SRC: &str = r#"
use anchor_lang::prelude::*;

#[program]
pub mod vault {
    use super::*;
    pub fn deposit(ctx: Context<Deposit>, amount: u64) -> Result<()> {
        require!(amount > 0, VaultError::Zero);
        Ok(())
    }
}

#[derive(Accounts)]
pub struct Deposit<'info> {
    #[account(
        mut,
        seeds = [b"vault", authority.key().as_ref()],
        bump
    )]
    pub vault: Account<'info, Vault>,
    pub authority: Signer<'info>,
}

#[account]
pub struct Vault {
    pub balance: u64,
}

#[error_code]
pub enum VaultError {
    #[msg("zero")]
    Zero,
}
"#;

#[test]
fn account_struct_constraint_lines_attribute_to_the_using_instruction() {
    let instructions = find_instructions(SRC, "src/lib.rs").unwrap();
    // "deposit" gets TWO disjoint ranges: its handler body and the
    // Accounts struct it uses via Context<Deposit>.
    let deposit: Vec<_> = instructions
        .iter()
        .filter(|i| i.name == "deposit")
        .collect();
    assert_eq!(
        deposit.len(),
        2,
        "handler range + struct range both attributed"
    );
    let handler = deposit
        .iter()
        .find(|i| i.range.contains(&8))
        .expect("handler range covers the require! line");
    let struct_range = deposit
        .iter()
        .find(|i| i.range.contains(&17))
        .expect("struct range covers the seeds constraint line");
    // The two ranges must not overlap: a handler-body mutant belongs to
    // the handler, a struct-constraint mutant to the struct, never both.
    assert!(
        handler.range.end <= struct_range.range.start,
        "ranges must be disjoint: {:?} vs {:?}",
        handler.range,
        struct_range.range
    );
    assert_eq!(instructions.len(), 2);
}

#[test]
fn exact_ranges_of_the_sample_program() {
    let instructions = find_instructions(SRC, "src/lib.rs").unwrap();
    assert_eq!(instructions[0].name, "deposit");
    assert_eq!(instructions[0].file, "src/lib.rs");
    assert_eq!(instructions[0].range, 7..10);
    assert_eq!(instructions[1].name, "deposit");
    assert_eq!(instructions[1].range, 14..22);
}

#[test]
fn source_that_does_not_parse_is_an_error() {
    assert!(find_instructions("pub fn (", "src/lib.rs").is_err());
    assert!(outline("struct {").is_err());
}

#[test]
fn outline_reads_structs_modules_and_handlers() {
    let items = outline(SRC).unwrap();
    let kinds: Vec<&str> = items
        .iter()
        .map(|i| match i {
            ItemOutline::Struct(_) => "struct",
            ItemOutline::Mod { .. } => "mod",
            ItemOutline::Other => "other",
        })
        .collect();
    assert_eq!(kinds, vec!["other", "mod", "struct", "struct", "other"]);
    match &items[1] {
        ItemOutline::Mod { attr_idents, content: Some(c) } => {
            assert_eq!(attr_idents, &vec![Some("program".to_string())]);
            assert_eq!(c.len(), 2);
            match &c[1] {
                InnerOutline::Fn(f) => {
                    assert_eq!(f.name, "deposit");
                    assert_eq!((f.line, f.close_line), (7, 10));
                    assert_eq!(f.args.len(), 2);
                    match &f.args[0] {
                        ArgOutline::TypePath { first, generic } => {
                            assert_eq!(first.as_deref(), Some("Context"));
                            assert_eq!(generic, &Some(Some("Deposit".to_string())));
                        }
                        ArgOutline::Other => panic!("ctx is a typed path"),
                    }
                }
                InnerOutline::Other => panic!("deposit is a function"),
            }
        }
        _ => panic!("the program module is inline"),
    }
    match &items[2] {
        ItemOutline::Struct(s) => {
            assert_eq!(s.name, "Deposit");
            assert_eq!(s.line, 14);
            assert_eq!(s.field_ends, vec![20, 21]);
        }
        _ => panic!("Deposit is a struct"),
    }
}

fn handler(name: &str, line: usize, close_line: usize, ctx: Option<&str>) -> InnerOutline {
    let args = match ctx {
        Some(x) => vec![ArgOutline::TypePath {
            first: Some("Context".to_string()),
            generic: Some(Some(x.to_string())),
        }],
        None => vec![ArgOutline::Other],
    };
    InnerOutline::Fn(FnOutline { name: name.to_string(), line, close_line, args })
}

fn strukt(name: &str, line: usize, field_ends: Vec<usize>) -> ItemOutline {
    ItemOutline::Struct(StructOutline { name: name.to_string(), line, field_ends })
}

#[test]
fn unused_struct_inside_a_handler_joins_its_range_and_entries_sort_by_start() {
    let items = vec![
        strukt("Late", 40, vec![44]),
        ItemOutline::Mod {
            attr_idents: vec![Some("program".to_string())],
            content: Some(vec![
                handler("b", 20, 30, Some("Late")),
                handler("a", 5, 12, None),
            ]),
        },
        strukt("Inner", 8, vec![]),
        strukt("Nowhere", 100, vec![101]),
    ];
    let r = instructions_from_outline(&items, "lib.rs");
    let got: Vec<(String, usize, usize)> =
        r.iter().map(|i| (i.name.clone(), i.range.start, i.range.end)).collect();
    assert_eq!(
        got,
        vec![
            ("a".to_string(), 5, 12),
            ("a".to_string(), 5, 12),
            ("b".to_string(), 20, 30),
            ("b".to_string(), 40, 45),
        ]
    );
}

#[test]
fn only_program_modules_hold_handlers_and_last_context_wins() {
    let items = vec![
        ItemOutline::Mod {
            attr_idents: vec![None, Some("helpers".to_string())],
            content: Some(vec![handler("not_a_handler", 3, 4, None)]),
        },
        ItemOutline::Mod {
            attr_idents: vec![Some("program".to_string())],
            content: Some(vec![InnerOutline::Fn(FnOutline {
                name: "h".to_string(),
                line: 0,
                close_line: 0,
                args: vec![
                    ArgOutline::TypePath {
                        first: Some("Context".to_string()),
                        generic: Some(Some("First".to_string())),
                    },
                    ArgOutline::TypePath {
                        first: Some("Context".to_string()),
                        generic: Some(Some("Second".to_string())),
                    },
                ],
            })]),
        },
        strukt("First", 50, vec![51]),
        strukt("Second", 60, vec![61]),
    ];
    let r = instructions_from_outline(&items, "x.rs");
    let got: Vec<(String, usize, usize)> =
        r.iter().map(|i| (i.name.clone(), i.range.start, i.range.end)).collect();
    // A name on line 0 reads as line 1, and a range is at least a line.
    assert_eq!(got, vec![("h".to_string(), 1, 2), ("h".to_string(), 60, 62)]);
}

#[test]
fn program_dir_choice_follows_the_layout() {
    let anchor = Some("[dependencies]\nanchor-lang = \"0.30\"\n".to_string());
    let plain = Some("[dependencies]\nserde = \"1\"\n".to_string());
    // A standalone Anchor crate is its own program.
    assert_eq!(find_program_dir(true, &anchor, true, &None), ProgramDir::Root);
    // No Anchor.toml: the root.
    assert_eq!(find_program_dir(false, &None, false, &Some(vec![])), ProgramDir::Root);
    // Workspace without programs/: the root.
    assert_eq!(find_program_dir(false, &plain, true, &None), ProgramDir::Root);
    // Workspace with an empty programs/.
    assert_eq!(find_program_dir(false, &plain, true, &Some(vec![])), ProgramDir::NoPrograms);
    // The first program whose manifest declares anchor-lang, else the first.
    assert_eq!(
        find_program_dir(false, &plain, true, &Some(vec![None, plain.clone(), anchor.clone()])),
        ProgramDir::Program(2)
    );
    assert_eq!(
        find_program_dir(true, &plain, true, &Some(vec![plain.clone(), None])),
        ProgramDir::Program(0)
    );
}
