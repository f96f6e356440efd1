//! The mutation engine: the operators, applied to Anchor program source.
//!
//! Each operator is a fixed, deterministic rule. It scans the source of an
//! Anchor program line by line, finds the construct that models a known
//! Solana audit bug class, and produces one mutant per line it fires on:
//! exactly one fault, located at a `file:line`, with the original and the
//! mutated line captured for the report. Same input, same mutants.
//!
//! Most operators rewrite the trimmed line and put its indentation (the
//! leading whitespace) back in front of it, so that the rewrite is the one
//! change on the line.

use vstd::prelude::*;
use crate::model::{Mutant, MutantView, Operator};
use crate::pattern::{char_alphanumeric, hit_in, regex_captures, regex_find, regex_find_all, regex_removed, Hit};
use crate::text::{
    begins, chars_of, contains, ends, ends_with, extend, extend_str, contains_str, indent, indent_exec,
    lemma_trim, replace_all, replace_all_str, replace_first, replace_first_exec, replace_first_str,
    same, same_str, slice, starts_with, string_of, trim, trim_bounds, trim_exec, trim_hi, trim_lo,
};
use crate::pattern::{capture_groups, find_all_matches, find_match, hit_view, is_alphanumeric, remove_first_match};

verus! {

/// A byte-string literal seed, as in `b"vault"`.
pub const PDA_SEED_PATTERN: &'static str = "b\"[^\"]*\"";

/// A comparison or boolean operator.
pub const COMPARISON_PATTERN: &'static str = "(<=|>=|==|!=|&&|\\|\\||[<>])";

/// A `checked_add` / `checked_sub` / `checked_mul` call, with an optional
/// trailing `.ok_or(...)?`.
pub const CHECKED_MATH_PATTERN: &'static str = "\\.checked_(add|sub|mul)\\(([^()]+)\\)(\\s*\\.ok_or\\([^()]*\\)\\?)?";

/// A `realloc = <size>` constraint clause.
pub const REALLOC_PATTERN: &'static str = "realloc\\s*=\\s*[^,\\)]+,?\\s*";

/// A `close = <receiver>` constraint, the receiver in group 1.
pub const CLOSE_TARGET_PATTERN: &'static str = "close\\s*=\\s*([A-Za-z_][A-Za-z0-9_]*)";

/// A `realloc::zero = <expr>` constraint clause.
pub const REALLOC_ZERO_PATTERN: &'static str = "realloc::zero\\s*=\\s*[^,\\)]+,?\\s*";

/// The set of source lines on which an operator is allowed to fire, used to
/// bind a mutant to the enclosing instruction handler.
#[derive(Debug, Clone)]
pub struct OperatorCtx<'a> {
    pub rel_file: &'a str,
    /// Line ranges (1-based) of the instruction handler functions, so a
    /// mutant can be attributed to an instruction.
    pub instruction_ranges: &'a [(String, std::ops::Range<usize>)],
}

// ---------------------------------------------------------------------------
// The rules, one line at a time
// ---------------------------------------------------------------------------

/// `signer` removed from the line, with the commas and spaces around it
/// cleaned.
pub open spec fn signer_rewrite(line: Seq<char>) -> Seq<char> {
    let r1 = replace_all(
        replace_all(replace_all(line, "signer"@, ""@), ",,"@, ","@),
        " ,"@,
        " "@,
    );
    replace_all(
        replace_all(replace_all(replace_all(r1, "(,"@, "("@), ",,"@, ","@), " )"@, ")"@),
        ",)"@,
        ")"@,
    )
}

/// Signer check removal: an `#[account(...)]` constraint with `signer` in it
/// loses the `signer`.
pub open spec fn signer_line(line: Seq<char>) -> Option<Seq<char>> {
    let t = trim(line);
    if contains(line, "signer"@) && starts_with(t, "#[account"@) && contains(t, "signer"@)
        && signer_rewrite(line) != line {
        Some(signer_rewrite(line))
    } else {
        None
    }
}

/// Authority check drop: an owner/authority `require!`-style check becomes a
/// comment.
pub open spec fn authority_line(line: Seq<char>) -> Option<Seq<char>> {
    let t = trim(line);
    if (starts_with(t, "require!"@) || starts_with(t, "require_keys_eq!"@) || starts_with(
        t,
        "require_neq!"@,
    )) && (contains(t, "authority"@) || contains(t, "owner"@)) && !contains(t, "//"@) {
        Some(indent(line) + "// ORIGINAL CHECK REMOVED (mutation): "@ + t)
    } else {
        None
    }
}

/// Discriminator removal: a `require!` guard on a discriminator becomes a
/// comment.
pub open spec fn discriminator_line(line: Seq<char>) -> Option<Seq<char>> {
    let t = trim(line);
    if (contains(t, "discriminator"@) || contains(t, "DISCRIMINATOR"@)) && !contains(t, "//"@)
        && starts_with(t, "require!"@) {
        Some(indent(line) + "// DISCRIMINATOR CHECK REMOVED (mutation): "@ + t)
    } else {
        None
    }
}

/// `str::trim_start_matches` with a non-empty string pattern.
pub open spec fn trim_start_matches(s: Seq<char>, p: Seq<char>) -> Seq<char>
    decreases s.len(),
{
    if p.len() > 0 && starts_with(s, p) {
        trim_start_matches(s.subrange(p.len() as int, s.len() as int), p)
    } else {
        s
    }
}

/// `str::trim_end_matches` with a non-empty string pattern.
pub open spec fn trim_end_matches(s: Seq<char>, p: Seq<char>) -> Seq<char>
    decreases s.len(),
{
    if p.len() > 0 && ends_with(s, p) {
        trim_end_matches(s.subrange(0, s.len() - p.len()), p)
    } else {
        s
    }
}

/// The seed literal that replaces `seed`: its content behind `__mut_`.
pub open spec fn swapped_seed(seed: Seq<char>) -> Seq<char> {
    "b\"__mut_"@ + trim_end_matches(trim_start_matches(seed, "b\""@), "\""@) + "\""@
}

/// PDA seed swap on a trimmed line: the first byte-string seed of a `seeds`
/// expression is renamed.
pub open spec fn pda_core(t: Seq<char>) -> Option<Seq<char>> {
    if (!contains(t, "seeds ="@) && !contains(t, "seeds="@)) || contains(t, "//"@) {
        None
    } else {
        match regex_find(PDA_SEED_PATTERN@, t) {
            Some((pre, seed)) => if !hit_in(t, pre, seed) || seed == "b\"\""@ {
                None
            } else {
                Some(replace_first(t, seed, swapped_seed(seed)))
            },
            None => None,
        }
    }
}

/// A use of the PDA bump.
pub open spec fn is_bump_use(t: Seq<char>) -> bool {
    ||| contains(t, "find_program_address"@)
    ||| contains(t, ", bump"@)
    ||| contains(t, "bump,"@)
    ||| contains(t, "&bump"@)
    ||| contains(t, "bump)"@)
    ||| contains(t, "bump ="@)
    ||| t == "bump"@
}

/// Bump mismatch on a trimmed line: the first `bump` becomes `bump + 1`.
pub open spec fn bump_core(t: Seq<char>) -> Option<Seq<char>> {
    if contains(t, "//"@) || !contains(t, "bump"@) || !is_bump_use(t) {
        None
    } else {
        let changed = replace_first(t, "bump"@, "bump + 1"@);
        if changed != t {
            Some(changed)
        } else {
            None
        }
    }
}

/// CPI target swap on a trimmed line: `<prog>::cpi::` becomes
/// `<prog>_mutant::cpi::`.
pub open spec fn cpi_core(t: Seq<char>) -> Option<Seq<char>> {
    if !contains(t, "::cpi::"@) || contains(t, "//"@) {
        None
    } else {
        let m = replace_first(t, "::cpi::"@, "_mutant::cpi::"@);
        if m != t {
            Some(m)
        } else {
            None
        }
    }
}

/// Close/rent drop on a trimmed line: `close =` is commented out.
pub open spec fn close_rent_core(t: Seq<char>) -> Option<Seq<char>> {
    if !contains(t, "close"@) || contains(t, "//"@) || !contains(t, "close ="@) {
        None
    } else {
        Some(replace_first(t, "close ="@, "// close removed (mutation)"@))
    }
}

/// Lines on which comparison flip never fires: comments, attributes,
/// signatures, checks owned by other operators, bindings and account fields,
/// seeds.
pub open spec fn flip_excluded(t: Seq<char>) -> bool {
    ||| contains(t, "//"@) || starts_with(t, "#["@) || starts_with(t, "pub "@) || contains(
        t,
        "fn "@,
    )
    ||| starts_with(t, ")"@) && contains(t, "->"@)
    ||| contains(t, "require!"@) && (contains(t, "authority"@) || contains(t, "owner"@)
        || contains(t, "discriminator"@))
    ||| starts_with(t, "let "@) || contains(t, "Account<"@) || contains(t, "Signer<"@)
    ||| contains(t, "seeds ="@) || contains(t, "seeds="@) || contains(t, "#["@)
}

/// The operator a comparison operator is flipped to.
pub open spec fn flip_of(op: Seq<char>) -> Option<Seq<char>> {
    if op == "<="@ {
        Some("<"@)
    } else if op == ">="@ {
        Some(">"@)
    } else if op == "<"@ {
        Some("<="@)
    } else if op == ">"@ {
        Some(">="@)
    } else if op == "=="@ {
        Some("!="@)
    } else if op == "!="@ {
        Some("=="@)
    } else if op == "&&"@ {
        Some("||"@)
    } else if op == "||"@ {
        Some("&&"@)
    } else {
        None
    }
}

/// A character that makes an adjacent `<` or `>` part of generic or lifetime
/// syntax.
pub open spec fn is_word_char(c: char) -> bool {
    char_alphanumeric(c) || c == '_' || c == '\''
}

/// The last character of `s`, a space when there is none.
pub open spec fn last_or_space(s: Seq<char>) -> char {
    if s.len() > 0 {
        s.last()
    } else {
        ' '
    }
}

/// The character of `s` at `i`, a space when there is none.
pub open spec fn char_or_space(s: Seq<char>, i: int) -> char {
    if 0 <= i < s.len() {
        s[i]
    } else {
        ' '
    }
}

/// A single `<` / `>` match that belongs to generics, lifetimes or an arrow.
pub open spec fn flip_skipped(t: Seq<char>, pre: Seq<char>, op: Seq<char>) -> bool {
    (op == "<"@ || op == ">"@) && (is_word_char(last_or_space(pre)) || is_word_char(
        char_or_space(t, (pre.len() + op.len()) as int),
    ) || ends_with(pre, "-"@))
}

/// `t` with the operator `op` that follows `pre` replaced by `f`.
pub open spec fn flipped_at(t: Seq<char>, pre: Seq<char>, op: Seq<char>, f: Seq<char>) -> Seq<char> {
    pre + f + t.subrange((pre.len() + op.len()) as int, t.len() as int)
}

/// The first of the matches from `i` on that is flipped.
pub open spec fn flip_pick(t: Seq<char>, ms: Seq<Hit>, i: int) -> Option<Seq<char>>
    decreases ms.len() - i,
{
    if i < 0 || i >= ms.len() {
        None
    } else if !hit_in(t, ms[i].0, ms[i].1) || flip_skipped(t, ms[i].0, ms[i].1) {
        flip_pick(t, ms, i + 1)
    } else {
        match flip_of(ms[i].1) {
            Some(f) => Some(flipped_at(t, ms[i].0, ms[i].1, f)),
            None => flip_pick(t, ms, i + 1),
        }
    }
}

/// Comparison flip on a trimmed line: the first real comparison or boolean
/// operator is inverted.
pub open spec fn flip_core(t: Seq<char>) -> Option<Seq<char>> {
    if flip_excluded(t) {
        None
    } else {
        flip_pick(t, regex_find_all(COMPARISON_PATTERN@, t), 0)
    }
}

/// The operator symbol of a checked arithmetic method suffix.
pub open spec fn math_symbol(op: Seq<char>) -> Option<Seq<char>> {
    if op == "add"@ {
        Some("+"@)
    } else if op == "sub"@ {
        Some("-"@)
    } else if op == "mul"@ {
        Some("*"@)
    } else {
        None
    }
}

/// Unchecked math on a trimmed line: `.checked_op(rhs)[.ok_or(..)?]` becomes
/// ` <symbol> rhs`.
pub open spec fn unchecked_core(t: Seq<char>) -> Option<Seq<char>> {
    if starts_with(t, "//"@) || starts_with(t, "#["@) {
        None
    } else {
        match regex_captures(CHECKED_MATH_PATTERN@, t) {
            Some((pre, gs)) => if gs.len() > 2 && gs[0] is Some && gs[1] is Some && gs[2] is Some {
                match math_symbol(gs[1]->0) {
                    Some(sym) => Some(
                        replace_first(t, gs[0]->0, " "@ + sym + " "@ + trim(gs[2]->0)),
                    ),
                    None => None,
                }
            } else {
                None
            },
            None => None,
        }
    }
}

/// Realloc check drop on a trimmed line: a `realloc = N` clause of an
/// account constraint is removed, or else a size-check `require!` becomes a
/// comment.
pub open spec fn realloc_core(t: Seq<char>) -> Option<Seq<char>> {
    if starts_with(t, "//"@) {
        None
    } else if starts_with(t, "#[account"@) && contains(t, "realloc ="@) && regex_removed(
        REALLOC_PATTERN@,
        t,
    ) != t {
        Some(regex_removed(REALLOC_PATTERN@, t))
    } else if contains(t, "require!"@) && (contains(t, "data_len"@) || contains(t, "INIT_SPACE"@)) {
        Some("// SIZE CHECK REMOVED (mutation): "@ + t)
    } else {
        None
    }
}

/// The receiver a closed account is redirected to.
pub open spec fn attacker_for(receiver: Seq<char>) -> Seq<char> {
    if receiver == "attacker"@ {
        "notauth"@
    } else {
        "attacker"@
    }
}

/// Close receiver swap on a trimmed line: `close = <receiver>` is redirected
/// to another account.
pub open spec fn close_receiver_core(t: Seq<char>) -> Option<Seq<char>> {
    if starts_with(t, "//"@) {
        None
    } else {
        match regex_captures(CLOSE_TARGET_PATTERN@, t) {
            Some((pre, gs)) => if gs.len() > 1 && gs[0] is Some && gs[1] is Some {
                let m = replace_first(t, gs[0]->0, "close = "@ + attacker_for(gs[1]->0));
                if m != t {
                    Some(m)
                } else {
                    None
                }
            } else {
                None
            },
            None => None,
        }
    }
}

/// Re-init zero-guard drop on a trimmed line: `realloc::zero = true` becomes
/// `false`, any other `realloc::zero = <expr>` clause is removed.
pub open spec fn reinit_core(t: Seq<char>) -> Option<Seq<char>> {
    if starts_with(t, "//"@) || !contains(t, "realloc::zero"@) {
        None
    } else {
        let m = if contains(t, "realloc::zero = true"@) {
            replace_first(t, "realloc::zero = true"@, "realloc::zero = false"@)
        } else {
            regex_removed(REALLOC_ZERO_PATTERN@, t)
        };
        if m == t {
            None
        } else {
            Some(m)
        }
    }
}

/// What an operator that rewrites the trimmed line makes of it.
pub open spec fn op_core(op: Operator, t: Seq<char>) -> Option<Seq<char>> {
    match op {
        Operator::PdaSeedSwap => pda_core(t),
        Operator::BumpMismatch => bump_core(t),
        Operator::CpiTargetSwap => cpi_core(t),
        Operator::CloseRentDrop => close_rent_core(t),
        Operator::ComparisonFlip => flip_core(t),
        Operator::UncheckedMath => unchecked_core(t),
        Operator::ReallocCheckDrop => realloc_core(t),
        Operator::CloseReceiverSwap => close_receiver_core(t),
        Operator::ReinitZeroGuardDrop => reinit_core(t),
        _ => None,
    }
}

/// The operators that rewrite the whole line themselves.
pub open spec fn is_line_op(op: Operator) -> bool {
    op == Operator::SignerCheckRemoval || op == Operator::AuthorityCheckDrop || op
        == Operator::DiscriminatorRemoval
}

/// The mutated line an operator makes of `line`, if it fires on it.
pub open spec fn op_line(op: Operator, line: Seq<char>) -> Option<Seq<char>> {
    match op {
        Operator::SignerCheckRemoval => signer_line(line),
        Operator::AuthorityCheckDrop => authority_line(line),
        Operator::DiscriminatorRemoval => discriminator_line(line),
        _ => match op_core(op, trim(line)) {
            Some(x) => if op == Operator::UncheckedMath && indent(line) + x == line {
                None
            } else {
                Some(indent(line) + x)
            },
            None => None,
        },
    }
}

/// The lines among the first `n` on which `op` fires, with their mutated
/// text.
pub open spec fn hits_upto(op: Operator, lines: Seq<Seq<char>>, n: int) -> Seq<(int, Seq<char>)>
    decreases n,
{
    if n <= 0 {
        Seq::empty()
    } else {
        hits_upto(op, lines, n - 1) + match op_line(op, lines[n - 1]) {
            Some(m) => seq![(n - 1, m)],
            None => Seq::empty(),
        }
    }
}

/// The order in which the operators scan the file.
pub open spec fn scan_order(k: int) -> Operator {
    if k == 0 {
        Operator::SignerCheckRemoval
    } else if k == 1 {
        Operator::AuthorityCheckDrop
    } else if k == 2 {
        Operator::DiscriminatorRemoval
    } else if k == 3 {
        Operator::PdaSeedSwap
    } else if k == 4 {
        Operator::BumpMismatch
    } else if k == 5 {
        Operator::CpiTargetSwap
    } else if k == 6 {
        Operator::CloseRentDrop
    } else if k == 7 {
        Operator::ComparisonFlip
    } else if k == 8 {
        Operator::UncheckedMath
    } else if k == 9 {
        Operator::ReallocCheckDrop
    } else if k == 10 {
        Operator::CloseReceiverSwap
    } else {
        Operator::ReinitZeroGuardDrop
    }
}

/// Every hit of `op`, tagged with the operator.
pub open spec fn tagged_hits(op: Operator, lines: Seq<Seq<char>>) -> Seq<(Operator, int, Seq<char>)> {
    hits_upto(op, lines, lines.len() as int).map_values(
        |h: (int, Seq<char>)| (op, h.0, h.1),
    )
}

/// The hits of the first `k` operators in scan order.
pub open spec fn scan_hits(lines: Seq<Seq<char>>, k: int) -> Seq<(Operator, int, Seq<char>)>
    decreases k,
{
    if k <= 0 {
        Seq::empty()
    } else {
        scan_hits(lines, k - 1) + tagged_hits(scan_order(k - 1), lines)
    }
}

/// Every hit of every operator, in the order the mutants are generated.
pub open spec fn generated_hits(lines: Seq<Seq<char>>) -> Seq<(Operator, int, Seq<char>)> {
    scan_hits(lines, 12)
}

/// The instruction whose range (1-based, end excluded) holds `line`: the
/// first such range from `i` on.
pub open spec fn attribute_from(
    ranges: Seq<(String, std::ops::Range<usize>)>,
    line: u32,
    i: int,
) -> Option<Seq<char>>
    decreases ranges.len() - i,
{
    if i < 0 || i >= ranges.len() {
        None
    } else if ranges[i].1.start <= line && line < ranges[i].1.end {
        Some(ranges[i].0@)
    } else {
        attribute_from(ranges, line, i + 1)
    }
}

/// The mutant generated for a hit.
pub open spec fn mutant_of(
    id: int,
    op: Operator,
    file: Seq<char>,
    ranges: Seq<(String, std::ops::Range<usize>)>,
    lines: Seq<Seq<char>>,
    idx: int,
    mutated: Seq<char>,
) -> MutantView {
    MutantView {
        id: id as usize,
        operator: op,
        file,
        line: (idx + 1) as u32,
        original: lines[idx],
        mutated,
        instruction: attribute_from(ranges, (idx + 1) as u32, 0),
    }
}


// ---------------------------------------------------------------------------
// Executable rules
// ---------------------------------------------------------------------------

/// The characters of an optional character vector.
pub open spec fn opt_chars(o: Option<Vec<char>>) -> Option<Seq<char>> {
    match o {
        Some(v) => Some(v@),
        None => None,
    }
}

/// Signer check removal on one line.
fn signer_check_removal(line: &Vec<char>) -> (r: Option<Vec<char>>)
    ensures
        opt_chars(r) == signer_line(line@),
{
    if !contains_str(line, "signer") {
        return None;
    }
    let t = trim_exec(line);
    if !(begins(&t, "#[account") && contains_str(&t, "signer")) {
        return None;
    }
    proof {
        reveal_strlit("signer");
        reveal_strlit(",,");
        reveal_strlit(" ,");
        reveal_strlit("(,");
        reveal_strlit(" )");
        reveal_strlit(",)");
    }
    let r = replace_all_str(line, "signer", "");
    let r = replace_all_str(&r, ",,", ",");
    let r = replace_all_str(&r, " ,", " ");
    let r = replace_all_str(&r, "(,", "(");
    let r = replace_all_str(&r, ",,", ",");
    let r = replace_all_str(&r, " )", ")");
    let r = replace_all_str(&r, ",)", ")");
    if same(&r, line) {
        None
    } else {
        Some(r)
    }
}

/// Authority check drop on one line.
fn authority_check_drop(line: &Vec<char>) -> (r: Option<Vec<char>>)
    ensures
        opt_chars(r) == authority_line(line@),
{
    let t = trim_exec(line);
    let is_check = (begins(&t, "require!") || begins(&t, "require_keys_eq!") || begins(
        &t,
        "require_neq!",
    )) && (contains_str(&t, "authority") || contains_str(&t, "owner")) && !contains_str(&t, "//");
    if !is_check {
        return None;
    }
    let mut muta = indent_exec(line);
    extend_str(&mut muta, "// ORIGINAL CHECK REMOVED (mutation): ");
    extend(&mut muta, &t);
    Some(muta)
}

/// Discriminator removal on one line.
fn discriminator_removal(line: &Vec<char>) -> (r: Option<Vec<char>>)
    ensures
        opt_chars(r) == discriminator_line(line@),
{
    let t = trim_exec(line);
    let is_disc = (contains_str(&t, "discriminator") || contains_str(&t, "DISCRIMINATOR")) && !contains_str(&t, "//");
    if !is_disc || !begins(&t, "require!") {
        return None;
    }
    let mut muta = indent_exec(line);
    extend_str(&mut muta, "// DISCRIMINATOR CHECK REMOVED (mutation): ");
    extend(&mut muta, &t);
    Some(muta)
}

fn trim_start_matches_exec(s: &Vec<char>, p: &Vec<char>) -> (r: Vec<char>)
    requires
        p@.len() > 0,
    ensures
        r@ == trim_start_matches(s@, p@),
{
    let mut cur = s.clone();
    assert(cur@ == s@);
    while p.len() <= cur.len() && same(&slice(&cur, 0, p.len()), p)
        invariant
            p@.len() > 0,
            trim_start_matches(s@, p@) == trim_start_matches(cur@, p@),
        decreases cur.len(),
    {
        cur = slice(&cur, p.len(), cur.len());
    }
    cur
}

fn trim_end_matches_exec(s: &Vec<char>, p: &Vec<char>) -> (r: Vec<char>)
    requires
        p@.len() > 0,
    ensures
        r@ == trim_end_matches(s@, p@),
{
    let mut cur = s.clone();
    assert(cur@ == s@);
    while p.len() <= cur.len() && same(&slice(&cur, cur.len() - p.len(), cur.len()), p)
        invariant
            p@.len() > 0,
            trim_end_matches(s@, p@) == trim_end_matches(cur@, p@),
        decreases cur.len(),
    {
        cur = slice(&cur, 0, cur.len() - p.len());
    }
    cur
}

fn swapped_seed_exec(seed: &Vec<char>) -> (r: Vec<char>)
    ensures
        r@ == swapped_seed(seed@),
{
    proof {
        reveal_strlit("b\"");
        reveal_strlit("\"");
    }
    let open = chars_of("b\"");
    let quote = chars_of("\"");
    let inner = trim_start_matches_exec(seed, &open);
    let inner = trim_end_matches_exec(&inner, &quote);
    let mut r = chars_of("b\"__mut_");
    extend(&mut r, &inner);
    extend(&mut r, &quote);
    r
}

/// PDA seed swap on a trimmed line.
fn pda_seed_swap(t: &Vec<char>) -> (r: Option<Vec<char>>)
    ensures
        opt_chars(r) == pda_core(t@),
{
    if (!contains_str(t, "seeds =") && !contains_str(t, "seeds=")) || contains_str(t, "//") {
        return None;
    }
    let ts = string_of(t);
    match find_match(PDA_SEED_PATTERN, ts.as_str()) {
        Some(h) => {
            let seed = chars_of(h.1.as_str());
            if same_str(&seed, "b\"\"") {
                None
            } else {
                let sw = swapped_seed_exec(&seed);
                Some(replace_first_exec(t, &seed, &sw))
            }
        },
        None => None,
    }
}

/// Bump mismatch on a trimmed line.
fn bump_mismatch(t: &Vec<char>) -> (r: Option<Vec<char>>)
    ensures
        opt_chars(r) == bump_core(t@),
{
    if contains_str(t, "//") || !contains_str(t, "bump") {
        return None;
    }
    let is_bump_use = contains_str(t, "find_program_address") || contains_str(t, ", bump") || contains_str(t, "bump,") || contains_str(
        t,
        "&bump",
    ) || contains_str(t, "bump)") || contains_str(t, "bump =") || same_str(t, "bump");
    if !is_bump_use {
        return None;
    }
    let changed = replace_first_str(t, "bump", "bump + 1");
    if same(&changed, t) {
        None
    } else {
        Some(changed)
    }
}

/// CPI target swap on a trimmed line.
fn cpi_target_swap(t: &Vec<char>) -> (r: Option<Vec<char>>)
    ensures
        opt_chars(r) == cpi_core(t@),
{
    if !contains_str(t, "::cpi::") || contains_str(t, "//") {
        return None;
    }
    let m = replace_first_str(t, "::cpi::", "_mutant::cpi::");
    if same(&m, t) {
        None
    } else {
        Some(m)
    }
}

/// Close/rent drop on a trimmed line.
fn close_rent_drop(t: &Vec<char>) -> (r: Option<Vec<char>>)
    ensures
        opt_chars(r) == close_rent_core(t@),
{
    if !contains_str(t, "close") || contains_str(t, "//") || !contains_str(t, "close =") {
        return None;
    }
    Some(replace_first_str(t, "close =", "// close removed (mutation)"))
}

fn flip_exec(op: &Vec<char>) -> (r: Option<Vec<char>>)
    ensures
        opt_chars(r) == flip_of(op@),
{
    let f = if same_str(op, "<=") {
        "<"
    } else if same_str(op, ">=") {
        ">"
    } else if same_str(op, "<") {
        "<="
    } else if same_str(op, ">") {
        ">="
    } else if same_str(op, "==") {
        "!="
    } else if same_str(op, "!=") {
        "=="
    } else if same_str(op, "&&") {
        "||"
    } else if same_str(op, "||") {
        "&&"
    } else {
        return None;
    };
    Some(chars_of(f))
}

fn is_word_char_exec(c: char) -> (b: bool)
    ensures
        b == is_word_char(c),
{
    is_alphanumeric(c) || c == '_' || c == '\''
}

/// Comparison flip on a trimmed line.
///
/// A single `<` / `>` is only flipped when it is a real comparison operator,
/// never when it is part of generic type or lifetime syntax or of an arrow.
fn comparison_flip(t: &Vec<char>) -> (r: Option<Vec<char>>)
    ensures
        opt_chars(r) == flip_core(t@),
{
    let excluded = (contains_str(t, "//") || begins(t, "#[") || begins(t, "pub ") || contains_str(t, "fn ")) || (
    begins(t, ")") && contains_str(t, "->")) || (contains_str(t, "require!") && (contains_str(t, "authority") || contains_str(
        t,
        "owner",
    ) || contains_str(t, "discriminator"))) || (begins(t, "let ") || contains_str(t, "Account<") || contains_str(
        t,
        "Signer<",
    )) || (contains_str(t, "seeds =") || contains_str(t, "seeds=") || contains_str(t, "#["));
    if excluded {
        return None;
    }
    assert(!flip_excluded(t@));
    let ts = string_of(t);
    let ms = find_all_matches(COMPARISON_PATTERN, ts.as_str());
    let ghost all = regex_find_all(COMPARISON_PATTERN@, t@);
    let mut i: usize = 0;
    while i < ms.len()
        invariant
            i <= ms@.len(),
            all == ms@.map_values(|h: (String, String)| hit_view(h)),
            all == regex_find_all(COMPARISON_PATTERN@, t@),
            !flip_excluded(t@),
            forall|k: int| 0 <= k < ms@.len() ==> #[trigger] crate::pattern::hit_in(t@, ms@[k].0@, ms@[k].1@),
            flip_pick(t@, all, 0) == flip_pick(t@, all, i as int),
        decreases ms.len() - i,
    {
        let pre = chars_of(ms[i].0.as_str());
        let op = chars_of(ms[i].1.as_str());
        assert(pre@ == ms@[i as int].0@);
        assert(op@ == ms@[i as int].1@);
        assert(all[i as int] == (pre@, op@));
        assert(crate::pattern::hit_in(t@, ms@[i as int].0@, ms@[i as int].1@));
        assert(pre@.len() + op@.len() <= t@.len());
        let single = same_str(&op, "<") || same_str(&op, ">");
        let mut skipped = false;
        if single {
            let before = if pre.len() > 0 {
                pre[pre.len() - 1]
            } else {
                ' '
            };
            assert(pre@.len() + op@.len() <= t@.len());
            assert(pre.len() + op.len() <= t.len());
            let k = pre.len() + op.len();
            let after = if k < t.len() {
                t[k]
            } else {
                ' '
            };
            assert(before == last_or_space(pre@));
            assert(after == char_or_space(t@, (pre@.len() + op@.len()) as int));
            skipped = is_word_char_exec(before) || is_word_char_exec(after) || ends(&pre, "-");
        }
        assert(skipped == flip_skipped(t@, pre@, op@));
        if !skipped {
            match flip_exec(&op) {
                Some(f) => {
                    assert(flip_pick(t@, all, i as int) == Some(flipped_at(t@, pre@, op@, f@)));
                    let mut out = pre.clone();
                    extend(&mut out, &f);
                    let rest = slice(t, pre.len() + op.len(), t.len());
                    extend(&mut out, &rest);
                    assert(out@ =~= flipped_at(t@, pre@, op@, f@));
                    return Some(out);
                },
                None => {},
            }
        }
        i = i + 1;
    }
    None
}

fn math_symbol_exec(op: &Vec<char>) -> (r: Option<Vec<char>>)
    ensures
        opt_chars(r) == math_symbol(op@),
{
    if same_str(op, "add") {
        Some(chars_of("+"))
    } else if same_str(op, "sub") {
        Some(chars_of("-"))
    } else if same_str(op, "mul") {
        Some(chars_of("*"))
    } else {
        None
    }
}

/// Unchecked math on a trimmed line.
fn unchecked_math(t: &Vec<char>) -> (r: Option<Vec<char>>)
    ensures
        opt_chars(r) == unchecked_core(t@),
{
    if begins(t, "//") || begins(t, "#[") {
        return None;
    }
    let ts = string_of(t);
    let caps = capture_groups(CHECKED_MATH_PATTERN, ts.as_str());
    match caps {
        Some(c) => {
            let gs = &c.1;
            if gs.len() <= 2 {
                return None;
            }
            assert(crate::pattern::groups_view(gs@)[0] == crate::model::opt_view(gs@[0]));
            assert(crate::pattern::groups_view(gs@)[1] == crate::model::opt_view(gs@[1]));
            assert(crate::pattern::groups_view(gs@)[2] == crate::model::opt_view(gs@[2]));
            match (&gs[0], &gs[1], &gs[2]) {
                (Some(g0), Some(g1), Some(g2)) => {
                    let op_c = chars_of(g1.as_str());
                    match math_symbol_exec(&op_c) {
                        Some(sym) => {
                            let frag = chars_of(g0.as_str());
                            let rhs = chars_of(g2.as_str());
                            let mut rep = chars_of(" ");
                            extend(&mut rep, &sym);
                            extend_str(&mut rep, " ");
                            let rt = trim_exec(&rhs);
                            extend(&mut rep, &rt);
                            Some(replace_first_exec(t, &frag, &rep))
                        },
                        None => None,
                    }
                },
                _ => None,
            }
        },
        None => None,
    }
}

/// Realloc check drop on a trimmed line.
fn realloc_check_drop(t: &Vec<char>) -> (r: Option<Vec<char>>)
    ensures
        opt_chars(r) == realloc_core(t@),
{
    if begins(t, "//") {
        return None;
    }
    if begins(t, "#[account") && contains_str(t, "realloc =") {
        let ts = string_of(t);
        let m = remove_first_match(REALLOC_PATTERN, ts.as_str());
        let mc = chars_of(m.as_str());
        if !same(&mc, t) {
            return Some(mc);
        }
    }
    if contains_str(t, "require!") && (contains_str(t, "data_len") || contains_str(t, "INIT_SPACE")) {
        let mut r = chars_of("// SIZE CHECK REMOVED (mutation): ");
        extend(&mut r, t);
        return Some(r);
    }
    None
}

/// Close receiver swap on a trimmed line.
fn close_receiver_swap(t: &Vec<char>) -> (r: Option<Vec<char>>)
    ensures
        opt_chars(r) == close_receiver_core(t@),
{
    if begins(t, "//") {
        return None;
    }
    let ts = string_of(t);
    let caps = capture_groups(CLOSE_TARGET_PATTERN, ts.as_str());
    match caps {
        Some(c) => {
            let gs = &c.1;
            if gs.len() <= 1 {
                return None;
            }
            assert(crate::pattern::groups_view(gs@)[0] == crate::model::opt_view(gs@[0]));
            assert(crate::pattern::groups_view(gs@)[1] == crate::model::opt_view(gs@[1]));
            match (&gs[0], &gs[1]) {
                (Some(g0), Some(g1)) => {
                    let receiver = chars_of(g1.as_str());
                    let attacker = if same_str(&receiver, "attacker") {
                        "notauth"
                    } else {
                        "attacker"
                    };
                    let frag = chars_of(g0.as_str());
                    let mut rep = chars_of("close = ");
                    extend_str(&mut rep, attacker);
                    let m = replace_first_exec(t, &frag, &rep);
                    if same(&m, t) {
                        None
                    } else {
                        Some(m)
                    }
                },
                _ => None,
            }
        },
        None => None,
    }
}

/// Re-init zero-guard drop on a trimmed line.
fn reinit_zero_guard_drop(t: &Vec<char>) -> (r: Option<Vec<char>>)
    ensures
        opt_chars(r) == reinit_core(t@),
{
    if begins(t, "//") || !contains_str(t, "realloc::zero") {
        return None;
    }
    let m = if contains_str(t, "realloc::zero = true") {
        replace_first_str(t, "realloc::zero = true", "realloc::zero = false")
    } else {
        let ts = string_of(t);
        let s = remove_first_match(REALLOC_ZERO_PATTERN, ts.as_str());
        chars_of(s.as_str())
    };
    if same(&m, t) {
        None
    } else {
        Some(m)
    }
}

/// What the trim-rewriting operator `op` makes of the trimmed line `t`.
fn core_exec(op: Operator, t: &Vec<char>) -> (r: Option<Vec<char>>)
    ensures
        opt_chars(r) == op_core(op, t@),
{
    match op {
        Operator::PdaSeedSwap => pda_seed_swap(t),
        Operator::BumpMismatch => bump_mismatch(t),
        Operator::CpiTargetSwap => cpi_target_swap(t),
        Operator::CloseRentDrop => close_rent_drop(t),
        Operator::ComparisonFlip => comparison_flip(t),
        Operator::UncheckedMath => unchecked_math(t),
        Operator::ReallocCheckDrop => realloc_check_drop(t),
        Operator::CloseReceiverSwap => close_receiver_swap(t),
        Operator::ReinitZeroGuardDrop => reinit_zero_guard_drop(t),
        _ => None,
    }
}

/// The mutated line `op` makes of `line`, if it fires on it.
fn mutate_line(op: Operator, line: &Vec<char>) -> (r: Option<Vec<char>>)
    ensures
        opt_chars(r) == op_line(op, line@),
{
    match op {
        Operator::SignerCheckRemoval => signer_check_removal(line),
        Operator::AuthorityCheckDrop => authority_check_drop(line),
        Operator::DiscriminatorRemoval => discriminator_removal(line),
        _ => {
            let t = trim_exec(line);
            match core_exec(op, &t) {
                Some(x) => {
                    let mut m = indent_exec(line);
                    extend(&mut m, &x);
                    if op == Operator::UncheckedMath && same(&m, line) {
                        None
                    } else {
                        Some(m)
                    }
                },
                None => None,
            }
        },
    }
}


/// Attribute a line to the enclosing instruction handler, if any: the first
/// range that holds it.
fn attribute(ctx: &OperatorCtx, line: u32) -> (r: Option<String>)
    ensures
        crate::model::opt_view(r) == attribute_from(ctx.instruction_ranges@, line, 0),
{
    let n = ctx.instruction_ranges.len();
    let mut i: usize = 0;
    while i < n
        invariant
            n == ctx.instruction_ranges@.len(),
            i <= n,
            attribute_from(ctx.instruction_ranges@, line, 0) == attribute_from(
                ctx.instruction_ranges@,
                line,
                i as int,
            ),
        decreases n - i,
    {
        let entry = &ctx.instruction_ranges[i];
        if entry.1.start <= line as usize && (line as usize) < entry.1.end {
            return Some(entry.0.clone());
        }
        i = i + 1;
    }
    None
}

/// The characters of each line.
pub open spec fn line_views(lines: Seq<Vec<char>>) -> Seq<Seq<char>> {
    crate::text::view_lines(lines)
}

/// Scans every line with `op` and appends one mutant per line it fires on,
/// numbered after the mutants already in `out`.
fn apply_operator(op: Operator, lines: &Vec<Vec<char>>, ctx: &OperatorCtx, out: &mut Vec<Mutant>)
    ensures
        final(out)@.len() == old(out)@.len() + hits_upto(
            op,
            line_views(lines@),
            lines@.len() as int,
        ).len(),
        forall|j: int| 0 <= j < old(out)@.len() ==> final(out)@[j] == old(out)@[j],
        forall|j: int|
            0 <= j < hits_upto(op, line_views(lines@), lines@.len() as int).len() ==> ({
                let h = hits_upto(op, line_views(lines@), lines@.len() as int)[j];
                (#[trigger] final(out)@[old(out)@.len() + j])@ == mutant_of(
                    old(out)@.len() + j,
                    op,
                    ctx.rel_file@,
                    ctx.instruction_ranges@,
                    line_views(lines@),
                    h.0,
                    h.1,
                )
            }),
{
    let ghost ls = line_views(lines@);
    let ghost base = out@.len();
    let ghost out0 = out@;
    let n = lines.len();
    let mut i: usize = 0;
    while i < n
        invariant
            n == lines@.len(),
            ls == line_views(lines@),
            i <= n,
            base == out0.len(),
            out@.len() == base + hits_upto(op, ls, i as int).len(),
            forall|j: int| 0 <= j < base ==> out@[j] == out0[j],
            forall|j: int|
                0 <= j < hits_upto(op, ls, i as int).len() ==> ({
                    let h = hits_upto(op, ls, i as int)[j];
                    (#[trigger] out@[base + j])@ == mutant_of(
                        base + j,
                        op,
                        ctx.rel_file@,
                        ctx.instruction_ranges@,
                        ls,
                        h.0,
                        h.1,
                    )
                }),
        decreases n - i,
    {
        let ghost prev = hits_upto(op, ls, i as int);
        assert(ls[i as int] == lines@[i as int]@);
        match mutate_line(op, &lines[i]) {
            Some(m) => {
                let line_no = (i + 1) as u32;
                let mutant = Mutant {
                    id: out.len(),
                    operator: op,
                    file: ctx.rel_file.to_owned(),
                    line: line_no,
                    original: string_of(&lines[i]),
                    mutated: string_of(&m),
                    instruction: attribute(ctx, line_no),
                };
                out.push(mutant);
                assert(hits_upto(op, ls, i + 1) == prev + seq![(i as int, m@)]);
            },
            None => {
                assert(hits_upto(op, ls, i + 1) == prev);
            },
        }
        i = i + 1;
    }
}

/// The operator at position `k` of the scan order.
fn scan_operator(k: usize) -> (op: Operator)
    ensures
        op == scan_order(k as int),
{
    if k == 0 {
        Operator::SignerCheckRemoval
    } else if k == 1 {
        Operator::AuthorityCheckDrop
    } else if k == 2 {
        Operator::DiscriminatorRemoval
    } else if k == 3 {
        Operator::PdaSeedSwap
    } else if k == 4 {
        Operator::BumpMismatch
    } else if k == 5 {
        Operator::CpiTargetSwap
    } else if k == 6 {
        Operator::CloseRentDrop
    } else if k == 7 {
        Operator::ComparisonFlip
    } else if k == 8 {
        Operator::UncheckedMath
    } else if k == 9 {
        Operator::ReallocCheckDrop
    } else if k == 10 {
        Operator::CloseReceiverSwap
    } else {
        Operator::ReinitZeroGuardDrop
    }
}

/// Every mutant the operators produce on one source file.
///
/// The file is split into lines; every operator in turn scans all of them
/// and contributes one mutant per line it fires on. The mutants are numbered
/// from 0 in the order they are produced; each records its operator, the
/// file, its 1-based line, the original and the mutated line, and the first
/// instruction range that holds the line.
pub fn generate(
    file_text: &str,
    rel_file: &str,
    instructions: &[(String, std::ops::Range<usize>)],
) -> (out: Vec<Mutant>)
    ensures
        out@.len() == generated_hits(crate::text::lines_of(file_text@)).len(),
        forall|j: int|
            0 <= j < out@.len() ==> ({
                let h = generated_hits(crate::text::lines_of(file_text@))[j];
                (#[trigger] out@[j])@ == mutant_of(
                    j,
                    h.0,
                    rel_file@,
                    instructions@,
                    crate::text::lines_of(file_text@),
                    h.1,
                    h.2,
                )
            }),
{
    let text = chars_of(file_text);
    let lines = crate::text::lines_exec(&text);
    let ghost ls = crate::text::lines_of(file_text@);
    assert(line_views(lines@) == ls);
    let ctx = OperatorCtx { rel_file, instruction_ranges: instructions };
    let mut out: Vec<Mutant> = Vec::new();
    let mut k: usize = 0;
    while k < 12
        invariant
            k <= 12,
            line_views(lines@) == ls,
            ctx.rel_file@ == rel_file@,
            ctx.instruction_ranges@ == instructions@,
            out@.len() == scan_hits(ls, k as int).len(),
            forall|j: int|
                0 <= j < out@.len() ==> ({
                    let h = scan_hits(ls, k as int)[j];
                    (#[trigger] out@[j])@ == mutant_of(
                        j,
                        h.0,
                        rel_file@,
                        instructions@,
                        ls,
                        h.1,
                        h.2,
                    )
                }),
        decreases 12 - k,
    {
        let op = scan_operator(k);
        let ghost before = out@;
        apply_operator(op, &lines, &ctx, &mut out);
        let ghost hs = hits_upto(op, ls, ls.len() as int);
        assert(scan_hits(ls, k + 1) == scan_hits(ls, k as int) + tagged_hits(op, ls));
        assert forall|j: int| 0 <= j < out@.len() implies ({
            let h = scan_hits(ls, k + 1)[j];
            (#[trigger] out@[j])@ == mutant_of(j, h.0, rel_file@, instructions@, ls, h.1, h.2)
        }) by {
            if j >= before.len() {
                let jj = j - before.len();
                assert(out@[before.len() + jj] == out@[j]);
            }
        }
        k = k + 1;
    }
    out
}

} // verus!
