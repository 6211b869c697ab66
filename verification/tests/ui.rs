//! The look: times, markdown, directives.

use kot::figures::{clock, stamp_at};
use kot::markdown::markdown;
use kot::scroll::{directed, split_words};
use kot::ui::{strip_ansi, theme, Rgb, Skin};

fn skin(name: &str) -> Skin {
    Skin { colour: true, width: 80, theme: theme(name), ramp: (0..200).map(|n| vec![Rgb(1, 2, 3); n]).collect() }
}

fn md(s: &str) -> String {
    strip_ansi(&markdown(&skin("bund"), s))
}

#[test]
fn clock_is_utc() {
    // 2026-09-24T01:40:12.345Z
    assert_eq!(clock(1_790_214_012_345), "09-24 01:40:12Z");
}

#[test]
fn stamp_is_blank_without_a_seal_time() {
    assert_eq!(stamp_at(None, Some(1)), "");
}

#[test]
fn stamp_shows_the_gap_since_the_previous() {
    assert_eq!(stamp_at(Some(1_790_214_012_345), Some(1_790_214_012_345 - 75_000)), "09-24 01:40:12Z +1m15s");
}

#[test]
fn headings_emphasis_and_inline_code_lose_their_markup() {
    let r = md("# /tmp/meow-greet: Rebuild\n\nBuilt with `rustc hello.rs` — **exit 0**, see [the log](http://x/y).");
    assert!(r.contains("  /tmp/meow-greet: Rebuild"), "{r}");
    assert!(r.contains("Built with rustc hello.rs — exit 0, see the log (http://x/y)."), "{r}");
    assert!(!r.contains("**") && !r.contains('`') && !r.contains("# "), "{r}");
}

#[test]
fn code_blocks_keep_their_contents_verbatim_behind_a_gutter() {
    let r = md("```rust\nfn main() { println!(\"**not bold**\"); }\n```\nafter");
    assert!(r.contains("┌ rust"), "{r}");
    assert!(r.contains("│ fn main() { println!(\"**not bold**\"); }"), "markup inside code is left alone: {r}");
    assert!(r.contains("└") && r.contains("  after"), "{r}");
    // An unclosed fence still closes at the end.
    assert!(md("```\nx").ends_with('└'));
}

#[test]
fn lists_quotes_and_rules() {
    let r = md("- one\n  - nested `x`\n1. first\n12. twelfth\n- [ ] open\n- [x] done\n> quoted **text**\n---");
    assert!(r.contains("  • one") && r.contains("    • nested x"), "{r}");
    assert!(r.contains("  1. first") && r.contains("  12. twelfth"), "{r}");
    assert!(r.contains("☐ open") && r.contains("☑ done"), "{r}");
    assert!(r.contains("▌ quoted text"), "{r}");
    assert!(r.contains("──"), "{r}");
}

#[test]
fn unmatched_markers_are_left_as_written() {
    let r = md("a ** b and a lone ` tick and [not a link]");
    assert!(r.contains("a ** b and a lone ` tick and [not a link]"), "{r}");
}

#[test]
fn a_directive_names_word_boundary_survives_shouting() {
    assert_eq!(split_words("PlanNeeded"), "Plan Needed");
    assert_eq!(split_words("ClearanceNeeded"), "Clearance Needed");
    assert_eq!(split_words("ReassignNeeded"), "Reassign Needed");
    assert_eq!(split_words("Plan"), "Plan", "a single word gains no stray space");
}

#[test]
fn directed_keeps_the_word_gap_whichever_theme_cases_it() {
    for name in ["bund", "neon", "ink"] {
        let r = strip_ansi(&directed(&skin(name), "PlanNeeded"));
        assert!(r.to_uppercase().contains("PLAN NEEDED"), "{r}");
    }
}

#[test]
fn a_quotes_markup_is_shown_without_its_marks() {
    assert_eq!(md("> a `b` **c**"), "  ▌ a b c");
}

#[test]
fn tabs_in_code_become_four_spaces() {
    assert_eq!(md("```\n\tx\n```"), "    ┌\n    │     x\n    └");
}
