//! Report rendering: the HTML scorecard must be self-contained valid HTML,
//! and an empty or inconclusive run must never show fabricated numbers.

use mutanchor::model::{InstructionScore, Mutant, MutantResult, Operator, Report, Verdict};
use mutanchor::report::{escape_html_exec, to_html};

fn score(parts: (u128, u128)) -> f64 {
    if parts.1 == 0 {
        0.0
    } else {
        parts.0 as f64 / parts.1 as f64
    }
}

fn pct(parts: (u128, u128)) -> String {
    format!("{:.1}", score(parts) * 100.0)
}

fn sample_report() -> Report {
    let mk = |id: usize, op: Operator, verdict: Verdict, line: u32, orig: &str, mutd: &str| {
        MutantResult {
            mutant: Mutant {
                id,
                operator: op,
                file: "src/lib.rs".to_string(),
                line,
                original: orig.to_string(),
                mutated: mutd.to_string(),
                instruction: Some("deposit".to_string()),
            },
            verdict,
            failing_tests: if matches!(verdict, Verdict::Killed) { 1 } else { 0 },
            first_failure: if matches!(verdict, Verdict::Killed) {
                Some("boundary".to_string())
            } else {
                None
            },
            exploit: if matches!(verdict, Verdict::Survived) {
                Some("attacker can overdraw".to_string())
            } else {
                None
            },
            build_ms: 5,
            run_ms: 2,
        }
    };

    let killed = mk(
        0,
        Operator::ComparisonFlip,
        Verdict::Killed,
        31,
        "require!(amount > 0)",
        "require!(amount >= 0)",
    );
    let survived = mk(
        1,
        Operator::ComparisonFlip,
        Verdict::Survived,
        43,
        "require!(a <= b)",
        "require!(a < b)",
    );

    Report {
        program: "demo_vault".to_string(),
        generated_at: "2026-08-19T00:00:00Z".to_string(),
        mutants_total: 2,
        killed: 1,
        survived: 1,
        build_failed: 0,
        timed_out: 0,
        dropped_equivalent: 0,
        per_instruction: vec![InstructionScore {
            instruction: "deposit".to_string(),
            killed: 1,
            survived: 1,
            build_failed: 0,
            timed_out: 0,
            total: 2,
        }],
        survivors: vec![survived.clone()],
        mutants: vec![killed, survived],
    }
}

fn render(report: &Report) -> String {
    let per: Vec<String> = report.per_instruction.iter().map(|s| pct(s.score_parts())).collect();
    to_html(report, &pct(report.score_parts()), &per)
}

#[test]
fn report_score_is_fraction_and_report_html_is_valid() {
    let report = sample_report();
    assert_eq!(score(report.score_parts()), 0.5);

    let html = render(&report);
    assert!(html.contains("<!doctype html>"));
    assert!(html.contains("Mutation score"));
    assert!(html.contains("demo_vault"));
    // Self-contained: no external script/style references (no network deps).
    assert!(!html.contains("src=\"http"));
    assert!(!html.contains("href=\"http"));
}

#[test]
fn empty_report_renders_empty_state_not_fabricated_data() {
    let empty = Report {
        program: "demo_vault".to_string(),
        generated_at: "2026-08-19T00:00:00Z".to_string(),
        mutants_total: 0,
        killed: 0,
        survived: 0,
        build_failed: 0,
        timed_out: 0,
        dropped_equivalent: 0,
        per_instruction: Vec::new(),
        survivors: Vec::new(),
        mutants: Vec::new(),
    };
    let html = render(&empty);
    // The panel must say it's empty, never show fabricated numbers.
    assert!(html.contains("No run yet"));
    assert!(!html.contains("Mutation score"));
}

#[test]
fn all_timeout_report_scores_zero_not_vacuous_one() {
    // A run where every mutant timed out learned nothing: the score must be
    // 0.0 (inconclusive), never a vacuous 100%. This pins the honesty rule.
    let report = Report {
        program: "demo_vault".to_string(),
        generated_at: "2026-08-19T00:00:00Z".to_string(),
        mutants_total: 13,
        killed: 0,
        survived: 0,
        build_failed: 0,
        timed_out: 13,
        dropped_equivalent: 0,
        per_instruction: vec![],
        survivors: vec![],
        mutants: vec![],
    };
    assert_eq!(report.score_parts(), (0, 0));
    assert_eq!(score(report.score_parts()), 0.0);
}

#[test]
fn escape_html_replaces_the_four_markup_characters() {
    assert_eq!(
        escape_html_exec("a < b && c > \"d\""),
        "a &lt; b &amp;&amp; c &gt; &quot;d&quot;"
    );
    assert_eq!(escape_html_exec("plain text"), "plain text");
    assert_eq!(escape_html_exec(""), "");
    let escaped = escape_html_exec("<script src=\"x\">");
    assert!(!escaped.contains('<') && !escaped.contains('>') && !escaped.contains('"'));
}

#[test]
fn html_rows_hold_the_exact_cells() {
    let html = render(&sample_report());
    assert!(html.contains(
        "<tr class=\"survived\"><td><code>1</code></td><td><code>comparison_flip</code></td>\
         <td>deposit</td><td class=\"loc\"><code>src/lib.rs:43</code></td>\
         <td><code>require!(a &lt;= b)</code></td><td><code>require!(a &lt; b)</code></td>\
         <td class=\"inline-sum\">attacker can overdraw</td></tr>"
    ));
    // A mutant without an exploit shows an escaped dash entity.
    assert!(html.contains("<td class=\"inline-sum\">&amp;ndash;</td></tr>"));
    assert!(html.contains(
        "<tr><td><code>deposit</code></td><td>1</td><td>1</td><td>0</td><td>0</td><td>2</td><td>50.0%</td></tr>"
    ));
    assert!(html.contains(
        "<p class=\"score\">Mutation score <strong>50.0%</strong></p><p>1 killed &middot; 1 survived \
         &middot; 0 build-failed &middot; 0 timeout &middot; 0 equivalent dropped</p>"
    ));
    assert!(html.contains("<p class=\"sub\">Generated 2026-08-19T00:00:00Z &middot; 2 mutants</p>"));
    assert!(html.ends_with("</tbody></table>\n</div></body></html>"));
}

#[test]
fn escape_html_of_entities_and_markup() {
    assert_eq!(
        escape_html_exec(r#"<b title="x">&amp;</b>"#),
        "&lt;b title=&quot;x&quot;&gt;&amp;amp;&lt;/b&gt;"
    );
}

#[test]
fn instruction_names_in_rows_are_escaped() {
    let mut report = sample_report();
    report.mutants[0].mutant.instruction = Some("<img src=x>".to_string());
    let html = render(&report);
    assert!(html.contains("<td>&lt;img src=x&gt;</td><td class=\"loc\">"));
    assert!(!html.contains("<img src=x>"));
}
