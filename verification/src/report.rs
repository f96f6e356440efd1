//! Rendering a report as a self-contained HTML scorecard.
//!
//! The page has no network assets: every style is inline, and every text
//! that comes from the report is HTML-escaped before it is put in.
//! Scores are percentages with one decimal; the caller formats them and
//! hands them in.

use vstd::prelude::*;
use crate::model::{operator_id, InstructionScore, MutantResult, Report, Verdict};
use crate::text::{chars_of, decimal, decimal_exec, extend, extend_str, join, string_of};

verus! {

/// A fixed piece of the report page.
pub const PAGE_START: &'static str = "<!doctype html>\n<html lang=\"en\"><head><meta charset=\"utf-8\">\n<meta name=\"viewport\" content=\"width=device-width, initial-scale=1\">\n<title>Mutanchor — report</title>\n<style>\n:root{color-scheme:light}\nbody{margin:0;font-family:ui-sans-serif,system-ui,sans-serif;background:#fafafa;color:#111;line-height:1.5}\n.wrap{max-width:1100px;margin:0 auto;padding:3rem 1.5rem}\nh1{font-size:1.6rem;margin:0 0 .2rem}\n.sub{color:#666}\n.score{font-size:1.1rem;margin:1rem 0}\n.score strong{color:#0a7}\ntable{width:100%;border-collapse:collapse;margin-top:1.5rem;font-size:.85rem}\nth,td{text-align:left;padding:.5rem .6rem;border-bottom:1px solid #e5e5e5;vertical-align:top}\nth{background:#f0f0f0;font-weight:600}\ncode{font-family:ui-monospace,monospace;font-size:.8rem;background:#f1f1f1;padding:.1rem .3rem;border-radius:4px}\n.loc code{white-space:nowrap}\ntr.killed td:first-child{background:#e8f7ef}\ntr.survived td:first-child{background:#fde8e8}\ntr.survived{outline:1px solid #f5c2c2}\ntr.failed td:first-child{background:#f6f6f6}\ntr.timeout td:first-child{background:#fff7e6}\n.inline-sum{color:#444;max-width:38ch}\n.empty{color:#888;font-style:italic}\n.badge{display:inline-block;padding:.15rem .5rem;border-radius:999px;background:#0a7;color:#fff;font-size:.75rem;font-weight:600}\n</style></head><body><div class=\"wrap\">\n<h1>Mutanchor report <span class=\"badge\">";

/// A fixed piece of the report page.
pub const PAGE_AFTER_PROGRAM: &'static str = "</span></h1>\n<p class=\"sub\">Generated ";

/// A fixed piece of the report page.
pub const PAGE_AFTER_WHEN: &'static str = " &middot; ";

/// A fixed piece of the report page.
pub const PAGE_AFTER_COUNT: &'static str = " mutants</p>\n";

/// A fixed piece of the report page.
pub const PAGE_AFTER_SUMMARY: &'static str = "\n<h2>Score by instruction</h2>\n<table><thead><tr><th>Instruction</th><th>Killed</th><th>Survived</th><th>Build-failed</th><th>Timeout</th><th>Total</th><th>Score</th></tr></thead>\n<tbody>";

/// A fixed piece of the report page.
pub const PAGE_AFTER_SCORES: &'static str = "</tbody></table>\n<h2>Mutants</h2>\n<table><thead><tr><th>#</th><th>Operator</th><th>Instruction</th><th>Location</th><th>Original</th><th>Mutated</th><th>Exploit / note</th></tr></thead>\n<tbody>";

/// A fixed piece of the report page.
pub const PAGE_END: &'static str = "</tbody></table>\n</div></body></html>";


/// What an empty report shows in place of a score.
pub const EMPTY_SUMMARY: &'static str = "<p class=\"empty\">No run yet. Run <code>mutanchor run</code> on an Anchor program and publish its report here — this panel stays empty until a real run exists. Nothing on this site is sample data.</p>";

// ---------------------------------------------------------------------------
// Escaping
// ---------------------------------------------------------------------------

/// The HTML escape of one character: `&`, `<`, `>` and `"` become entities.
pub open spec fn escape_char(c: char) -> Seq<char> {
    if c == '&' {
        "&amp;"@
    } else if c == '<' {
        "&lt;"@
    } else if c == '>' {
        "&gt;"@
    } else if c == '"' {
        "&quot;"@
    } else {
        seq![c]
    }
}

/// The HTML escape of a text, character by character.
pub open spec fn escape_html(s: Seq<char>) -> Seq<char>
    decreases s.len(),
{
    if s.len() == 0 {
        Seq::empty()
    } else {
        escape_html(s.drop_last()) + escape_char(s.last())
    }
}

/// Appends the HTML escape of `s` to `out`.
fn push_escaped(out: &mut Vec<char>, s: &str)
    ensures
        final(out)@ == old(out)@ + escape_html(s@),
{
    let cs = chars_of(s);
    let ghost base = out@;
    let mut k: usize = 0;
    while k < cs.len()
        invariant
            k <= cs@.len(),
            cs@ == s@,
            out@ == base + escape_html(cs@.subrange(0, k as int)),
        decreases cs.len() - k,
    {
        assert(cs@.subrange(0, k + 1).drop_last() =~= cs@.subrange(0, k as int));
        let c = cs[k];
        if c == '&' {
            extend_str(out, "&amp;");
        } else if c == '<' {
            extend_str(out, "&lt;");
        } else if c == '>' {
            extend_str(out, "&gt;");
        } else if c == '"' {
            extend_str(out, "&quot;");
        } else {
            out.push(c);
        }
        k = k + 1;
        assert(out@ =~= base + escape_html(cs@.subrange(0, k as int)));
    }
    assert(cs@.subrange(0, cs@.len() as int) =~= cs@);
}

/// `s` with `&`, `<`, `>` and `"` replaced by their HTML entities.
pub fn escape_html_exec(s: &str) -> (r: String)
    ensures
        r@ == escape_html(s@),
{
    let mut out: Vec<char> = Vec::new();
    push_escaped(&mut out, s);
    assert(out@ =~= escape_html(s@));
    string_of(&out)
}

/// An escaped text holds no `<`, `>` or `"`: it cannot open or close a tag or
/// an attribute value.
pub proof fn law_escaped_has_no_markup(s: Seq<char>)
    ensures
        forall|i: int|
            0 <= i < escape_html(s).len() ==> {
                let c = #[trigger] escape_html(s)[i];
                c != '<' && c != '>' && c != '"'
            },
    decreases s.len(),
{
    if s.len() > 0 {
        law_escaped_has_no_markup(s.drop_last());
        let a = escape_html(s.drop_last());
        let b = escape_char(s.last());
        reveal_strlit("&amp;");
        reveal_strlit("&lt;");
        reveal_strlit("&gt;");
        reveal_strlit("&quot;");
        assert forall|i: int| 0 <= i < escape_html(s).len() implies {
            let c = #[trigger] escape_html(s)[i];
            c != '<' && c != '>' && c != '"'
        } by {
            if i >= a.len() {
                assert(escape_html(s)[i] == b[i - a.len()]);
            } else {
                assert(escape_html(s)[i] == a[i]);
            }
        }
    }
}

/// A text without `&`, `<`, `>` or `"` is its own escape.
pub proof fn law_plain_text_unchanged(s: Seq<char>)
    requires
        forall|i: int| 0 <= i < s.len() ==> {
            let c = #[trigger] s[i];
            c != '&' && c != '<' && c != '>' && c != '"'
        },
    ensures
        escape_html(s) == s,
    decreases s.len(),
{
    if s.len() > 0 {
        assert forall|i: int| 0 <= i < s.drop_last().len() implies {
            let c = #[trigger] s.drop_last()[i];
            c != '&' && c != '<' && c != '>' && c != '"'
        } by {
            assert(s.drop_last()[i] == s[i]);
        }
        law_plain_text_unchanged(s.drop_last());
        assert(s.last() == s[s.len() - 1]);
        assert(s =~= s.drop_last() + seq![s.last()]);
    }
}

/// Reading the four entities back: `&amp;`, `&lt;`, `&gt;` and `&quot;`
/// become `&`, `<`, `>` and `"`, read from the front; every other character
/// stays.
pub open spec fn unescape_html(s: Seq<char>) -> Seq<char>
    decreases s.len(),
{
    if s.len() == 0 {
        Seq::empty()
    } else if s.len() >= 5 && s.subrange(0, 5) == "&amp;"@ {
        seq!['&'] + unescape_html(s.subrange(5, s.len() as int))
    } else if s.len() >= 4 && s.subrange(0, 4) == "&lt;"@ {
        seq!['<'] + unescape_html(s.subrange(4, s.len() as int))
    } else if s.len() >= 4 && s.subrange(0, 4) == "&gt;"@ {
        seq!['>'] + unescape_html(s.subrange(4, s.len() as int))
    } else if s.len() >= 6 && s.subrange(0, 6) == "&quot;"@ {
        seq!['"'] + unescape_html(s.subrange(6, s.len() as int))
    } else {
        seq![s[0]] + unescape_html(s.subrange(1, s.len() as int))
    }
}

/// Escaping distributes over concatenation.
proof fn lemma_escape_concat(a: Seq<char>, b: Seq<char>)
    ensures
        escape_html(a + b) == escape_html(a) + escape_html(b),
    decreases b.len(),
{
    if b.len() == 0 {
        assert(a + b =~= a);
        assert(escape_html(b) =~= Seq::<char>::empty());
        assert(escape_html(a) + escape_html(b) =~= escape_html(a));
    } else {
        lemma_escape_concat(a, b.drop_last());
        assert((a + b).drop_last() =~= a + b.drop_last());
        assert((a + b).last() == b.last());
        assert(escape_html(a + b) =~= escape_html(a) + escape_html(b));
    }
}

/// Escaping loses nothing: reading the entities back gives the text again.
pub proof fn law_escape_round_trip(s: Seq<char>)
    ensures
        unescape_html(escape_html(s)) == s,
    decreases s.len(),
{
    reveal_strlit("&amp;");
    reveal_strlit("&lt;");
    reveal_strlit("&gt;");
    reveal_strlit("&quot;");
    if s.len() == 0 {
        assert(escape_html(s) =~= Seq::<char>::empty());
    } else {
        let c = s[0];
        let rest = s.subrange(1, s.len() as int);
        assert(s =~= seq![c] + rest);
        lemma_escape_concat(seq![c], rest);
        assert(seq![c].drop_last() =~= Seq::<char>::empty());
        assert(seq![c].last() == c);
        assert(escape_html(seq![c].drop_last()) =~= Seq::<char>::empty());
        assert(escape_html(seq![c]) == escape_html(seq![c].drop_last()) + escape_char(seq![c].last()));
        assert(escape_html(seq![c]) =~= escape_char(c));
        law_escape_round_trip(rest);
        let er = escape_html(rest);
        let e = escape_char(c) + er;
        assert(escape_html(s) == e);
        let k = escape_char(c).len() as int;
        assert(e.subrange(k, e.len() as int) =~= er);
        assert(e.subrange(0, k) =~= escape_char(c));
        if c == '&' {
            assert(unescape_html(e) == seq!['&'] + unescape_html(er));
        } else if c == '<' {
            assert(e[1] == 'l');
            assert(unescape_html(e) == seq!['<'] + unescape_html(er));
        } else if c == '>' {
            assert(e[1] == 'g');
            assert(e.subrange(0, 4) != "&lt;"@ ) by {
                assert(e.subrange(0, 4)[1] != "&lt;"@[1]);
            }
            assert(unescape_html(e) == seq!['>'] + unescape_html(er));
        } else if c == '"' {
            assert(e[1] == 'q');
            assert(e.subrange(0, 4) != "&lt;"@ ) by {
                assert(e.subrange(0, 4)[1] != "&lt;"@[1]);
            }
            assert(e.subrange(0, 4) != "&gt;"@ ) by {
                assert(e.subrange(0, 4)[1] != "&gt;"@[1]);
            }
            assert(unescape_html(e) == seq!['"'] + unescape_html(er));
        } else {
            assert(e[0] == c);
            assert(e.len() >= 5 ==> e.subrange(0, 5)[0] != "&amp;"@[0]);
            assert(e.len() >= 4 ==> e.subrange(0, 4)[0] != "&lt;"@[0]);
            assert(e.len() >= 6 ==> e.subrange(0, 6)[0] != "&quot;"@[0]);
            assert(unescape_html(e) == seq![c] + unescape_html(er));
        }
        assert(seq![c] + rest =~= s);
    }
}

// ---------------------------------------------------------------------------
// The page
// ---------------------------------------------------------------------------

/// The row class of a verdict.
pub open spec fn verdict_class(v: Verdict) -> Seq<char> {
    match v {
        Verdict::Killed => "killed"@,
        Verdict::Survived => "survived"@,
        Verdict::BuildFailed => "failed"@,
        Verdict::TimedOut => "timeout"@,
    }
}

/// The opening of a mutant's row: class, id, operator and instruction (`-`
/// for none).
pub open spec fn row_head(r: MutantResult) -> Seq<char> {
    let instr = match r.mutant.instruction {
        Some(s) => escape_html(s@),
        None => "-"@,
    };
    "<tr class=\""@ + verdict_class(r.verdict) + "\"><td><code>"@ + decimal(r.mutant.id as nat)
        + "</code></td><td><code>"@ + operator_id(r.mutant.operator) + "</code></td><td>"@ + instr
}

/// The location of a mutant's row, `file:line`.
pub open spec fn row_location(r: MutantResult) -> Seq<char> {
    "</td><td class=\"loc\"><code>"@ + escape_html(r.mutant.file@) + ":"@ + decimal(
        r.mutant.line as nat,
    )
}

/// The close of a mutant's row: original and mutated line, and the exploit
/// sketch (`&ndash;` for none, escaped like the rest).
pub open spec fn row_tail(r: MutantResult) -> Seq<char> {
    let expl = match r.exploit {
        Some(e) => e@,
        None => "&ndash;"@,
    };
    "</code></td><td><code>"@ + escape_html(r.mutant.original@) + "</code></td><td><code>"@
        + escape_html(r.mutant.mutated@) + "</code></td><td class=\"inline-sum\">"@ + escape_html(
        expl,
    ) + "</td></tr>"@
}

/// The row of one mutant.
pub open spec fn mutant_row(r: MutantResult) -> Seq<char> {
    row_head(r) + row_location(r) + row_tail(r)
}

/// The row of one instruction's score, its percentage given.
pub open spec fn score_row(s: InstructionScore, pct: Seq<char>) -> Seq<char> {
    "<tr><td><code>"@ + escape_html(s.instruction@) + "</code></td><td>"@ + decimal(s.killed as nat)
        + "</td><td>"@ + decimal(s.survived as nat) + "</td><td>"@ + decimal(s.build_failed as nat)
        + "</td><td>"@ + decimal(s.timed_out as nat) + "</td><td>"@ + decimal(s.total as nat)
        + "</td><td>"@ + pct + "%</td></tr>"@
}

/// The summary: the empty state for an empty report, else the overall score
/// (its percentage given) and the verdict counts.
pub open spec fn summary(r: Report, pct: Seq<char>) -> Seq<char> {
    if r.mutants_total == 0 {
        EMPTY_SUMMARY@
    } else {
        "<p class=\"score\">Mutation score <strong>"@ + pct + "%</strong></p><p>"@ + decimal(
            r.killed as nat,
        ) + " killed &middot; "@ + decimal(r.survived as nat) + " survived &middot; "@ + decimal(
            r.build_failed as nat,
        ) + " build-failed &middot; "@ + decimal(r.timed_out as nat) + " timeout &middot; "@
            + decimal(r.dropped_equivalent as nat) + " equivalent dropped</p>"@
    }
}

/// The score rows, one per instruction score with its percentage.
pub open spec fn score_rows(ss: Seq<InstructionScore>, pcts: Seq<Seq<char>>) -> Seq<Seq<char>> {
    Seq::new(ss.len(), |k: int| score_row(ss[k], pcts[k]))
}

/// The whole page.
pub open spec fn html_page(r: Report, score_pct: Seq<char>, pcts: Seq<Seq<char>>) -> Seq<char> {
    PAGE_START@ + escape_html(r.program@) + PAGE_AFTER_PROGRAM@ + escape_html(r.generated_at@)
        + PAGE_AFTER_WHEN@ + decimal(r.mutants_total as nat) + PAGE_AFTER_COUNT@ + summary(r, score_pct)
        + PAGE_AFTER_SUMMARY@ + join(score_rows(r.per_instruction@, pcts), "\n"@)
        + PAGE_AFTER_SCORES@ + join(r.mutants@.map_values(|m: MutantResult| mutant_row(m)), "\n"@)
        + PAGE_END@
}

/// The verdict counts of a report, each number followed by its label.
pub open spec fn counts_line(r: Report) -> Seq<char> {
    "<p>"@ + decimal(r.killed as nat) + " killed &middot; "@ + decimal(r.survived as nat)
        + " survived &middot; "@ + decimal(r.build_failed as nat) + " build-failed &middot; "@ + decimal(
        r.timed_out as nat,
    ) + " timeout &middot; "@ + decimal(r.dropped_equivalent as nat) + " equivalent dropped</p>"@
}

/// The page of a report that holds mutants shows each verdict count on its
/// own label: the killed count before "killed", the survived count before
/// "survived", and so on.
pub proof fn law_page_shows_counts(r: Report, score_pct: Seq<char>, pcts: Seq<Seq<char>>)
    requires
        r.mutants_total > 0,
    ensures
        crate::text::contains(html_page(r, score_pct, pcts), counts_line(r)),
{
    reveal_strlit("%</strong></p><p>");
    reveal_strlit("%</strong></p>");
    reveal_strlit("<p>");
    let head = "<p class=\"score\">Mutation score <strong>"@ + score_pct + "%</strong></p>"@;
    let cl = counts_line(r);
    assert(summary(r, score_pct) =~= head + cl);
    let pre = PAGE_START@ + escape_html(r.program@) + PAGE_AFTER_PROGRAM@ + escape_html(r.generated_at@)
        + PAGE_AFTER_WHEN@ + decimal(r.mutants_total as nat) + PAGE_AFTER_COUNT@ + head;
    let post = PAGE_AFTER_SUMMARY@ + join(score_rows(r.per_instruction@, pcts), "\n"@)
        + PAGE_AFTER_SCORES@ + join(r.mutants@.map_values(|m: MutantResult| mutant_row(m)), "\n"@)
        + PAGE_END@;
    let page = html_page(r, score_pct, pcts);
    assert(page =~= pre + cl + post);
    assert(page.subrange(pre.len() as int, (pre.len() + cl.len()) as int) =~= cl);
    crate::text::lemma_find_from(page, cl, 0);
    assert(crate::text::match_at(page, cl, pre.len() as int));
}

/// Appends the decimal notation of `n`.
fn push_decimal(out: &mut Vec<char>, n: u128)
    ensures
        final(out)@ == old(out)@ + decimal(n as nat),
{
    let d = decimal_exec(n);
    extend(out, &d);
}

/// Appends the opening of a mutant's row.
fn push_row_head(out: &mut Vec<char>, r: &MutantResult)
    ensures
        final(out)@ == old(out)@ + row_head(*r),
{
    let ghost base = out@;
    let class = match r.verdict {
        Verdict::Killed => "killed",
        Verdict::Survived => "survived",
        Verdict::BuildFailed => "failed",
        Verdict::TimedOut => "timeout",
    };
    extend_str(out, "<tr class=\"");
    extend_str(out, class);
    extend_str(out, "\"><td><code>");
    push_decimal(out, r.mutant.id as u128);
    extend_str(out, "</code></td><td><code>");
    extend_str(out, r.mutant.operator.id());
    extend_str(out, "</code></td><td>");
    match &r.mutant.instruction {
        Some(s) => push_escaped(out, s.as_str()),
        None => extend_str(out, "-"),
    }
    assert(out@ =~= base + row_head(*r));
}

/// Appends the location of a mutant's row.
fn push_row_location(out: &mut Vec<char>, r: &MutantResult)
    ensures
        final(out)@ == old(out)@ + row_location(*r),
{
    let ghost base = out@;
    extend_str(out, "</td><td class=\"loc\"><code>");
    push_escaped(out, r.mutant.file.as_str());
    extend_str(out, ":");
    push_decimal(out, r.mutant.line as u128);
    assert(out@ =~= base + row_location(*r));
}

/// Appends the close of a mutant's row.
fn push_row_tail(out: &mut Vec<char>, r: &MutantResult)
    ensures
        final(out)@ == old(out)@ + row_tail(*r),
{
    let ghost base = out@;
    extend_str(out, "</code></td><td><code>");
    push_escaped(out, r.mutant.original.as_str());
    extend_str(out, "</code></td><td><code>");
    push_escaped(out, r.mutant.mutated.as_str());
    extend_str(out, "</code></td><td class=\"inline-sum\">");
    match &r.exploit {
        Some(e) => push_escaped(out, e.as_str()),
        None => push_escaped(out, "&ndash;"),
    }
    extend_str(out, "</td></tr>");
    assert(out@ =~= base + row_tail(*r));
}

/// Appends the row of one mutant.
fn push_mutant_row(out: &mut Vec<char>, r: &MutantResult)
    ensures
        final(out)@ == old(out)@ + mutant_row(*r),
{
    let ghost base = out@;
    push_row_head(out, r);
    push_row_location(out, r);
    push_row_tail(out, r);
    assert(out@ =~= base + mutant_row(*r));
}

/// Appends the row of one instruction's score.
fn push_score_row(out: &mut Vec<char>, s: &InstructionScore, pct: &str)
    ensures
        final(out)@ == old(out)@ + score_row(*s, pct@),
{
    let ghost base = out@;
    extend_str(out, "<tr><td><code>");
    push_escaped(out, s.instruction.as_str());
    extend_str(out, "</code></td><td>");
    push_decimal(out, s.killed as u128);
    extend_str(out, "</td><td>");
    push_decimal(out, s.survived as u128);
    extend_str(out, "</td><td>");
    push_decimal(out, s.build_failed as u128);
    extend_str(out, "</td><td>");
    push_decimal(out, s.timed_out as u128);
    extend_str(out, "</td><td>");
    push_decimal(out, s.total as u128);
    extend_str(out, "</td><td>");
    extend_str(out, pct);
    extend_str(out, "%</td></tr>");
    assert(out@ =~= base + score_row(*s, pct@));
}

/// Appends the summary.
fn push_summary(out: &mut Vec<char>, r: &Report, pct: &str)
    ensures
        final(out)@ == old(out)@ + summary(*r, pct@),
{
    let ghost base = out@;
    if r.is_empty() {
        extend_str(out, EMPTY_SUMMARY);
    } else {
        extend_str(out, "<p class=\"score\">Mutation score <strong>");
        extend_str(out, pct);
        extend_str(out, "%</strong></p><p>");
        push_decimal(out, r.killed as u128);
        extend_str(out, " killed &middot; ");
        push_decimal(out, r.survived as u128);
        extend_str(out, " survived &middot; ");
        push_decimal(out, r.build_failed as u128);
        extend_str(out, " build-failed &middot; ");
        push_decimal(out, r.timed_out as u128);
        extend_str(out, " timeout &middot; ");
        push_decimal(out, r.dropped_equivalent as u128);
        extend_str(out, " equivalent dropped</p>");
    }
    assert(out@ =~= base + summary(*r, pct@));
}

pub open spec fn pcts_view(v: Seq<String>) -> Seq<Seq<char>> {
    v.map_values(|p: String| p@)
}

/// Renders the report as a self-contained HTML scorecard: the program and
/// the time of the run, the summary (overall score and verdict counts, or the
/// empty state), a table of the instructions' scores and a table of every
/// mutant. `score_pct` is the overall score and `instruction_pcts` the score
/// of each instruction, in percent as they are to be shown.
pub fn to_html(report: &Report, score_pct: &str, instruction_pcts: &[String]) -> (r: String)
    requires
        instruction_pcts@.len() == report.per_instruction@.len(),
    ensures
        r@ == html_page(*report, score_pct@, pcts_view(instruction_pcts@)),
{
    let mut out: Vec<char> = Vec::new();
    extend_str(&mut out, PAGE_START);
    push_escaped(&mut out, report.program.as_str());
    extend_str(&mut out, PAGE_AFTER_PROGRAM);
    push_escaped(&mut out, report.generated_at.as_str());
    extend_str(&mut out, PAGE_AFTER_WHEN);
    push_decimal(&mut out, report.mutants_total as u128);
    extend_str(&mut out, PAGE_AFTER_COUNT);
    push_summary(&mut out, report, score_pct);
    extend_str(&mut out, PAGE_AFTER_SUMMARY);
    let ghost head = out@;
    let ghost rows = score_rows(report.per_instruction@, pcts_view(instruction_pcts@));
    let mut k: usize = 0;
    while k < report.per_instruction.len()
        invariant
            k <= report.per_instruction@.len(),
            instruction_pcts@.len() == report.per_instruction@.len(),
            rows == score_rows(report.per_instruction@, pcts_view(instruction_pcts@)),
            out@ == head + join(rows.subrange(0, k as int), "\n"@),
        decreases report.per_instruction.len() - k,
    {
        assert(rows.subrange(0, k + 1).drop_last() =~= rows.subrange(0, k as int));
        assert(rows[k as int] == score_row(report.per_instruction@[k as int], instruction_pcts@[k as int]@));
        if k > 0 {
            extend_str(&mut out, "\n");
        }
        push_score_row(&mut out, &report.per_instruction[k], instruction_pcts[k].as_str());
        k = k + 1;
        assert(out@ =~= head + join(rows.subrange(0, k as int), "\n"@));
    }
    assert(rows.subrange(0, rows.len() as int) =~= rows);
    extend_str(&mut out, PAGE_AFTER_SCORES);
    let ghost mid = out@;
    let ghost mrows = report.mutants@.map_values(|m: MutantResult| mutant_row(m));
    let mut k: usize = 0;
    while k < report.mutants.len()
        invariant
            k <= report.mutants@.len(),
            mrows == report.mutants@.map_values(|m: MutantResult| mutant_row(m)),
            out@ == mid + join(mrows.subrange(0, k as int), "\n"@),
        decreases report.mutants.len() - k,
    {
        assert(mrows.subrange(0, k + 1).drop_last() =~= mrows.subrange(0, k as int));
        if k > 0 {
            extend_str(&mut out, "\n");
        }
        push_mutant_row(&mut out, &report.mutants[k]);
        k = k + 1;
        assert(out@ =~= mid + join(mrows.subrange(0, k as int), "\n"@));
    }
    assert(mrows.subrange(0, mrows.len() as int) =~= mrows);
    extend_str(&mut out, PAGE_END);
    assert(out@ =~= html_page(*report, score_pct@, pcts_view(instruction_pcts@)));
    string_of(&out)
}

} // verus!
