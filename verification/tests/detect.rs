use std::cell::Cell;

use bthint::candidate::build_candidates;
use bthint::candidate::Variant;
use bthint::detector::SnippetDetector;
use bthint::race::RaceStatus;
use bthint::race::RaceVerdict;
use bthint::race::WindowRace;
use bthint::text::contains_trigger;
use bthint::text::join_window;
use bthint::text::split_lines;
use bthint::validator::classify_report;
use bthint::validator::CheckerReport;
use bthint::validator::ValidationOutcome;

/// Runs a whole detection, standing in for the external checker: `valid`
/// says whether one candidate buffer would pass the syntax check.
fn drive<F: Fn(usize, usize, Variant) -> bool>(text: &str, valid: F) -> Option<(String, String)> {
    let mut d = SnippetDetector::new(text);
    while d.running {
        let (s, e) = (d.start, d.end);
        let cands = build_candidates(&d.lines, s, e);
        let mut race = WindowRace::new();
        let mut verdict = None;
        for c in cands {
            let report = CheckerReport::Exited(valid(s, e, c.variant));
            match race.record(classify_report(report)) {
                RaceStatus::Resolved(v) => {
                    verdict = Some(v);
                    break;
                }
                RaceStatus::Waiting => {}
            }
        }
        d.step(verdict.expect("the race resolves once every candidate reported"));
    }
    d.result.map(|det| (det.lang, det.fragment))
}

fn strings(xs: &[&str]) -> Vec<String> {
    xs.iter().map(|s| s.to_string()).collect()
}

#[test]
fn no_trigger_characters_is_no_match_without_any_window() {
    let text = "alpha\nbeta\ngamma\ndelta\nepsilon\nzeta\neta";
    let asked = Cell::new(0usize);
    let result = drive(text, |_, _, _| {
        asked.set(asked.get() + 1);
        true
    });
    assert!(result.is_none());
    assert_eq!(asked.get(), 0);
}

#[test]
fn fewer_than_six_lines_is_no_match_without_any_window() {
    let text = "a;\nb;\nc;\nd;\ne;";
    let asked = Cell::new(0usize);
    let result = drive(text, |_, _, _| {
        asked.set(asked.get() + 1);
        true
    });
    assert!(result.is_none());
    assert_eq!(asked.get(), 0);
}

#[test]
fn five_statement_lines_alone_are_below_the_length_gate() {
    // with no sixth line there is nothing to search, whatever the checker
    // would have said
    let text = "hello();\n$world = foo();\nbar($baz);\n$qux = 1;\n$corge += $qux;";
    let result = drive(text, |_, _, _| true);
    assert!(result.is_none());
}

#[test]
fn trailing_newline_yields_exactly_the_five_visible_lines() {
    // the empty element after the final newline clears the length gate but
    // never enters a window, so the fragment carries no trailing newline
    let text = "hello();\n$world = foo();\nbar($baz);\n$qux = 1;\n$corge += $qux;\n";
    let windows = Cell::new(0usize);
    let result = drive(text, |_, _, v| {
        if v == Variant::Plain {
            windows.set(windows.get() + 1);
        }
        true
    });
    let (lang, frag) = result.expect("the one window validates");
    assert_eq!(lang, "php");
    assert_eq!(
        frag,
        "hello();\n$world = foo();\nbar($baz);\n$qux = 1;\n$corge += $qux;"
    );
    assert_eq!(windows.get(), 1);
}

#[test]
fn five_statement_lines_amid_chatter_are_found() {
    let text = "some chatter\nhello();\n$world = foo();\nbar($baz);\n$qux = 1;\n$corge += $qux;\nmore chatter";
    let result = drive(text, |s, e, _| (s, e) == (1, 6));
    let (lang, frag) = result.expect("the statement window validates");
    assert_eq!(lang, "php");
    assert_eq!(
        frag,
        "hello();\n$world = foo();\nbar($baz);\n$qux = 1;\n$corge += $qux;"
    );
}

#[test]
fn found_fragment_has_at_least_five_lines() {
    let text = "some chatter\nhello();\n$world = foo();\nbar($baz);\n$qux = 1;\n$corge += $qux;\nmore chatter";
    let (_, frag) = drive(text, |s, e, _| (s, e) == (1, 6)).unwrap();
    assert_eq!(frag.split('\n').count(), 5);
}

#[test]
fn missing_semicolon_everywhere_invalid_is_none() {
    let text = "some chatter\nhello();\n$world = foo();\nbar($baz)\n$qux = 1;\n$corge += $qux;\nmore chatter";
    let windows = Cell::new(0usize);
    let last = Cell::new((usize::MAX, usize::MAX));
    let result = drive(text, |s, e, v| {
        if v == Variant::Plain {
            windows.set(windows.get() + 1);
            last.set((s, e));
        }
        false
    });
    assert!(result.is_none());
    // 7 lines: ends descend from 6 to start + 5, the last line stays outside
    assert_eq!(windows.get(), 3);
    assert_eq!(last.get(), (1, 6));
}

#[test]
fn method_declaration_is_found_through_the_wrapped_variant() {
    let text = "public function foo() {\nhello();\n$world = foo();\nbar($baz);\n$qux = 1;\n$corge += $qux;\n}\nmore chatter";
    let result = drive(text, |s, e, v| (s, e) == (0, 7) && v == Variant::WrappedInClass);
    let (lang, frag) = result.expect("the wrapped candidate validates");
    assert_eq!(lang, "php");
    // the fragment is the undecorated original, not the wrapped buffer
    assert_eq!(
        frag,
        "public function foo() {\nhello();\n$world = foo();\nbar($baz);\n$qux = 1;\n$corge += $qux;\n}"
    );
}

#[test]
fn prose_with_trigger_characters_exhausts_all_windows() {
    let text = "Hi! Is $5 okay?\n{shrug}\nwho knows;\nmaybe\nmaybe not\nlet us see\nbye";
    let windows = Cell::new(0usize);
    let result = drive(text, |_, _, v| {
        if v == Variant::Plain {
            windows.set(windows.get() + 1);
        }
        false
    });
    assert!(result.is_none());
    assert_eq!(windows.get(), 3);
}

#[test]
fn earliest_start_wins_over_a_later_window() {
    let text = "a;\nb;\nc;\nd;\ne;\nf;\ng;\nh;";
    let valid = [(0usize, 6usize), (1, 7)];
    let result = drive(text, |s, e, _| valid.contains(&(s, e)));
    let (_, frag) = result.unwrap();
    assert_eq!(frag, "a;\nb;\nc;\nd;\ne;\nf;");
}

#[test]
fn longest_window_wins_among_equal_starts() {
    let text = "a;\nb;\nc;\nd;\ne;\nf;\ng;\nh;";
    let valid = [(1usize, 6usize), (1, 7)];
    let result = drive(text, |s, e, _| valid.contains(&(s, e)));
    let (_, frag) = result.unwrap();
    assert_eq!(frag, "b;\nc;\nd;\ne;\nf;\ng;");
}

#[test]
fn deadline_expiry_aborts_the_whole_search() {
    let text = "a;\nb;\nc;\nd;\ne;\nf;\ng;\nh;";
    let mut d = SnippetDetector::new(text);
    assert!(d.running);
    assert_eq!((d.start, d.end), (0, 7));
    let done = d.step(RaceVerdict::DeadlineExpired);
    assert!(done);
    assert!(!d.running);
    assert!(d.result.is_none());
}

#[test]
fn windows_shrink_before_the_start_advances() {
    let text = "a;\nb;\nc;\nd;\ne;\nf;\ng;";
    let mut d = SnippetDetector::new(text);
    let mut seen = Vec::new();
    while d.running {
        seen.push((d.start, d.end));
        d.step(RaceVerdict::Exhausted);
    }
    assert_eq!(seen, vec![(0, 6), (0, 5), (1, 6)]);
    assert!(d.result.is_none());
}

#[test]
fn plain_candidate_gets_the_open_tag_and_terminated_lines() {
    let lines = strings(&["a;", "b;", "c;", "d;", "e;", "tail"]);
    let cands = build_candidates(&lines, 0, 5);
    assert_eq!(cands.len(), 2);
    assert_eq!(cands[0].variant, Variant::Plain);
    assert_eq!(cands[0].buffer, "<?php\na;\nb;\nc;\nd;\ne;\n");
    assert_eq!(cands[1].variant, Variant::WrappedInClass);
    assert_eq!(cands[1].buffer, "<?php\nclass Foo {a;\nb;\nc;\nd;\ne;\n}");
}

#[test]
fn window_already_carrying_the_marker_is_not_tagged_again() {
    let lines = strings(&["<?php echo 1;", "b;", "c;", "d;", "e;"]);
    let cands = build_candidates(&lines, 0, 5);
    assert_eq!(cands[0].buffer, "<?php echo 1;\nb;\nc;\nd;\ne;\n");
    assert_eq!(cands[1].buffer, "class Foo {<?php echo 1;\nb;\nc;\nd;\ne;\n}");
}

#[test]
fn candidate_window_need_not_start_at_the_first_line() {
    let lines = strings(&["chatter", "a;", "b;", "c;", "d;", "e;", "chatter"]);
    let cands = build_candidates(&lines, 1, 6);
    assert_eq!(cands[0].buffer, "<?php\na;\nb;\nc;\nd;\ne;\n");
}

#[test]
fn exit_status_maps_to_the_validation_outcome() {
    assert_eq!(
        classify_report(CheckerReport::Exited(true)),
        ValidationOutcome::Valid
    );
    assert_eq!(
        classify_report(CheckerReport::Exited(false)),
        ValidationOutcome::Invalid
    );
    assert_eq!(
        classify_report(CheckerReport::Failed),
        ValidationOutcome::ValidatorError
    );
}

#[test]
fn valid_short_circuits_the_race() {
    let mut race = WindowRace::new();
    assert_eq!(race.pending, 2);
    assert_eq!(
        race.record(ValidationOutcome::Valid),
        RaceStatus::Resolved(RaceVerdict::Found)
    );
}

#[test]
fn validator_error_counts_like_invalid_in_the_race() {
    let mut race = WindowRace::new();
    assert_eq!(race.record(ValidationOutcome::ValidatorError), RaceStatus::Waiting);
    assert_eq!(
        race.record(ValidationOutcome::Invalid),
        RaceStatus::Resolved(RaceVerdict::Exhausted)
    );
}

#[test]
fn second_candidate_can_still_win_the_race() {
    let mut race = WindowRace::new();
    assert_eq!(race.record(ValidationOutcome::Invalid), RaceStatus::Waiting);
    assert_eq!(
        race.record(ValidationOutcome::Valid),
        RaceStatus::Resolved(RaceVerdict::Found)
    );
}

#[test]
fn expiry_is_its_own_verdict() {
    let race = WindowRace::new();
    assert_eq!(
        race.expire(),
        RaceStatus::Resolved(RaceVerdict::DeadlineExpired)
    );
}

#[test]
fn split_lines_cuts_at_every_newline() {
    assert_eq!(split_lines("a\n\nb"), strings(&["a", "", "b"]));
    assert_eq!(split_lines(""), strings(&[""]));
    assert_eq!(split_lines("one line"), strings(&["one line"]));
    assert_eq!(split_lines("trailing\n"), strings(&["trailing", ""]));
}

#[test]
fn join_window_restores_the_window_text() {
    let lines = strings(&["a", "", "b", "c"]);
    assert_eq!(join_window(&lines, 0, 4), "a\n\nb\nc");
    assert_eq!(join_window(&lines, 1, 3), "\nb");
}

#[test]
fn trigger_characters_are_semicolon_dollar_and_brace() {
    assert!(contains_trigger("a;b"));
    assert!(contains_trigger("Is $5 okay"));
    assert!(contains_trigger("{shrug}"));
    assert!(!contains_trigger("plain prose, nothing else!"));
    assert!(!contains_trigger(""));
}
