use langmangler::pipeline::Pipeline;
use langmangler::pipeline::transform_lines;
use langmangler::rules::ParseError;

fn lines(raw: &[&str]) -> Vec<String> {
    raw.iter().map(|s| s.to_string()).collect()
}

fn build(raw: &[&str]) -> Pipeline {
    Pipeline::build(&lines(raw)).unwrap_or_else(|e| panic!("{}", e.message()))
}

#[test]
fn literal_deletion_removes_every_occurrence() {
    let p = build(&["@NonReturningNonSegmentedSimple", "x/"]);
    assert_eq!(p.run("taxi"), "tai");
    assert_eq!(p.run("taXi"), "tai");
    assert_eq!(p.run("xxx"), "");
    assert_eq!(p.run("abc"), "abc");
}

#[test]
fn literal_deletion_advances_by_one_character() {
    let p = build(&["@NonReturningNonSegmentedSimple", "ab/"]);
    assert_eq!(p.run("xabyab"), "xbyb");
}

#[test]
fn literal_pass_preserves_case_pattern() {
    let p = build(&["@NonReturningNonSegmentedSimple", "ph/f"]);
    assert_eq!(p.run("PHoto"), "Foto");
    assert_eq!(p.run("photo"), "foto");
    assert_eq!(p.run("PHOTO"), "FOTO");
}

#[test]
fn literal_rules_are_lowercased_at_parse_time() {
    let p = build(&["@NonReturningNonSegmentedSimple", "PH/F"]);
    assert_eq!(p.run("photo"), "foto");
}

#[test]
fn first_declared_rule_wins_over_longer_later_match() {
    let p = build(&["@NonReturningNonSegmentedSimple", "ab/x", "a/y"]);
    assert_eq!(p.run("ab"), "x");
    let shadowing = build(&["@NonReturningNonSegmentedSimple", "a/y", "ab/x"]);
    assert_eq!(shadowing.run("ab"), "yb");
}

#[test]
fn global_pattern_rules_feed_each_other() {
    let p = build(&["@ReturningNonSegmentedRegex", "a+/b", "b+/c"]);
    assert_eq!(p.run("aaa"), "c");
}

#[test]
fn global_pattern_capture_groups_expand() {
    let p = build(&["@ReturningNonSegmentedRegex", "(a)(b)/$2$1"]);
    assert_eq!(p.run("ab"), "ba");
}

#[test]
fn segmented_pattern_applies_per_segment() {
    let p = build(&["@ReturningSegmentedRegex", "^a/X"]);
    assert_eq!(p.run("apple a-apple"), "Xpple X-Xpple");
    let global = build(&["@ReturningNonSegmentedRegex", "^a/X"]);
    assert_eq!(global.run("apple a-apple"), "Xpple a-apple");
}

#[test]
fn segmented_pass_keeps_delimiters_in_place() {
    let p = build(&["@ReturningSegmentedRegex", "a/o"]);
    assert_eq!(p.run("a-a a"), "o-o o");
}

#[test]
fn passes_run_in_declaration_order() {
    let p = build(&[
        "@NonReturningNonSegmentedSimple",
        "k/c",
        "@ReturningNonSegmentedRegex",
        "c+/k",
    ]);
    assert_eq!(p.run("kck"), "k");
}

#[test]
fn comments_and_whitespace_are_stripped() {
    let p = build(&[
        "# a rules file",
        "",
        "  @NonReturningNonSegmentedSimple  # literal pass",
        "  x/y  # rewrite",
        "   ",
    ]);
    assert_eq!(p.len(), 1);
    assert_eq!(p.run("x"), "y");
}

#[test]
fn header_with_no_rules_is_dropped() {
    let p = build(&["@NonReturningNonSegmentedSimple"]);
    assert_eq!(p.len(), 0);
    assert_eq!(p.run("unchanged"), "unchanged");
}

#[test]
fn pass_with_rules_is_retained() {
    let p = build(&["@NonReturningNonSegmentedSimple", "a/b"]);
    assert_eq!(p.len(), 1);
    assert_eq!(p.run("a"), "b");
}

#[test]
fn empty_pass_between_full_passes_is_dropped() {
    let p = build(&[
        "@ReturningNonSegmentedRegex",
        "@NonReturningNonSegmentedSimple",
        "a/b",
    ]);
    assert_eq!(p.len(), 1);
    assert_eq!(p.run("a"), "b");
}

#[test]
fn empty_rules_file_gives_empty_pipeline() {
    let p = build(&[]);
    assert_eq!(p.len(), 0);
    assert_eq!(p.run("word"), "word");
}

#[test]
fn rule_before_header_is_rejected() {
    let e = Pipeline::build(&lines(&["a/b"])).err().unwrap();
    assert!(matches!(e, ParseError::MissingPassHeader { .. }));
}

#[test]
fn unknown_header_is_rejected() {
    let e = Pipeline::build(&lines(&["@Bogus", "a/b"])).err().unwrap();
    assert!(matches!(e, ParseError::InvalidPassHeader { .. }));
}

#[test]
fn header_names_are_case_sensitive() {
    let e = Pipeline::build(&lines(&["@nonreturningnonsegmentedsimple", "a/b"])).err().unwrap();
    assert!(matches!(e, ParseError::InvalidPassHeader { .. }));
}

#[test]
fn rule_without_separator_is_rejected() {
    let e = Pipeline::build(&lines(&["@NonReturningNonSegmentedSimple", "xy"])).err().unwrap();
    assert!(matches!(e, ParseError::MalformedRule { .. }));
}

#[test]
fn invalid_pattern_is_rejected() {
    let e = Pipeline::build(&lines(&["@ReturningNonSegmentedRegex", "(/x"])).err().unwrap();
    assert!(matches!(e, ParseError::InvalidPattern { .. }));
}

#[test]
fn rule_line_splits_at_first_slash() {
    let p = build(&["@ReturningNonSegmentedRegex", "a/b/c"]);
    assert_eq!(p.run("a"), "b/c");
}

#[test]
fn empty_literal_from_never_matches() {
    let p = build(&["@NonReturningNonSegmentedSimple", "/z"]);
    assert_eq!(p.run("ab"), "ab");
}

#[test]
fn error_message_names_the_offending_line() {
    let e = Pipeline::build(&lines(&["@NonReturningNonSegmentedSimple", "xy"])).err().unwrap();
    assert_eq!(e.message(), "malformed rule line: xy");
}

#[test]
fn transform_lines_maps_each_input_line() {
    let rules = lines(&["@NonReturningNonSegmentedSimple", "ph/f"]);
    let inputs = lines(&["PHoto", "graph", "none"]);
    let out = transform_lines(&rules, &inputs).unwrap_or_else(|e| panic!("{}", e.message()));
    assert_eq!(out, vec!["Foto".to_string(), "graf".to_string(), "none".to_string()]);
}

#[test]
fn transform_lines_surfaces_parse_errors() {
    let rules = lines(&["@ReturningNonSegmentedRegex", "[/x"]);
    let inputs = lines(&["abc"]);
    assert!(matches!(
        transform_lines(&rules, &inputs),
        Err(ParseError::InvalidPattern { .. })
    ));
}
