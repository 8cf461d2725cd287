use commitlint::Message;

#[test]
fn empty_input_has_empty_subject_and_nothing_else() {
    let m = Message::new(String::new());
    assert_eq!(m.raw, "");
    assert_eq!(m.subject.as_deref(), Some(""));
    assert!(m.body.is_none());
    assert!(m.footers.is_none());
    assert!(m.type_.is_none());
    assert!(m.scope.is_none());
    assert!(m.description.is_none());
}

#[test]
fn structured_subject_with_scope() {
    let m = Message::new(String::from("feat(parser): add support"));
    assert_eq!(m.type_.as_deref(), Some("feat"));
    assert_eq!(m.scope.as_deref(), Some("parser"));
    assert_eq!(m.description.as_deref(), Some("add support"));
    assert_eq!(m.subject.as_deref(), Some("feat(parser): add support"));
    assert!(m.body.is_none());
    assert!(m.footers.is_none());
}

#[test]
fn structured_subject_without_scope() {
    let m = Message::new(String::from("fix: correct bug"));
    assert_eq!(m.type_.as_deref(), Some("fix"));
    assert!(m.scope.is_none());
    assert_eq!(m.description.as_deref(), Some("correct bug"));
    assert_eq!(m.subject.as_deref(), Some("fix: correct bug"));
}

#[test]
fn unstructured_subject_without_colon() {
    let m = Message::new(String::from("update docs"));
    assert!(m.type_.is_none());
    assert!(m.scope.is_none());
    assert!(m.description.is_none());
    assert_eq!(m.subject.as_deref(), Some("update docs"));
}

#[test]
fn body_and_breaking_change_footer() {
    let m = Message::new(String::from(
        "feat: x\n\nSome body text.\n\nBREAKING CHANGE: changes API",
    ));
    assert_eq!(m.body.as_deref(), Some("Some body text."));
    let footers = m.footers.expect("footers");
    assert_eq!(footers.len(), 1);
    assert_eq!(footers[0].0, "BREAKING CHANGE");
    assert_eq!(footers[0].1, "changes API");
}

#[test]
fn reparsing_raw_yields_identical_message() {
    let inputs = vec![
        String::new(),
        String::from("feat(parser): add support"),
        String::from("update docs"),
        String::from("feat: x\n\nSome body text.\n\nBREAKING CHANGE: changes API"),
        String::from("  odd   input\n\n\nwith blanks\n\nRefs #7\n"),
    ];
    for raw in inputs {
        let m = Message::new(raw);
        let again = Message::new(m.raw.clone());
        assert_eq!(m, again);
    }
}

#[test]
fn subject_is_trimmed_first_paragraph() {
    let m = Message::new(String::from("  update the docs  \nsecond line\n\nbody"));
    assert_eq!(m.subject.as_deref(), Some("update the docs  \nsecond line"));
    assert_eq!(m.body.as_deref(), Some("body"));
}

#[test]
fn breaking_marker_without_scope() {
    let m = Message::new(String::from("feat!: drop old API"));
    assert_eq!(m.type_.as_deref(), Some("feat"));
    assert!(m.scope.is_none());
    assert_eq!(m.description.as_deref(), Some("drop old API"));
}

#[test]
fn breaking_marker_with_scope() {
    let m = Message::new(String::from("feat(api)!: drop old API"));
    assert_eq!(m.type_.as_deref(), Some("feat"));
    assert_eq!(m.scope.as_deref(), Some("api"));
    assert_eq!(m.description.as_deref(), Some("drop old API"));
}

#[test]
fn missing_space_after_colon_is_unstructured() {
    let m = Message::new(String::from("fix:no space"));
    assert!(m.type_.is_none());
    assert_eq!(m.subject.as_deref(), Some("fix:no space"));
}

#[test]
fn empty_description_is_unstructured() {
    let m = Message::new(String::from("fix: "));
    assert!(m.type_.is_none());
    assert_eq!(m.subject.as_deref(), Some("fix:"));
}

#[test]
fn empty_type_is_unstructured() {
    let m = Message::new(String::from("(scope): x"));
    assert!(m.type_.is_none());
    assert!(m.scope.is_none());
    assert!(m.description.is_none());
}

#[test]
fn unclosed_scope_is_unstructured() {
    let m = Message::new(String::from("feat(parser: add support"));
    assert!(m.type_.is_none());
    assert!(m.scope.is_none());
    assert!(m.description.is_none());
}

#[test]
fn empty_scope_is_kept() {
    let m = Message::new(String::from("feat(): x"));
    assert_eq!(m.type_.as_deref(), Some("feat"));
    assert_eq!(m.scope.as_deref(), Some(""));
    assert_eq!(m.description.as_deref(), Some("x"));
}

#[test]
fn subject_is_trimmed_before_decomposition() {
    let m = Message::new(String::from("  fix: correct bug  "));
    assert_eq!(m.subject.as_deref(), Some("fix: correct bug"));
    assert_eq!(m.type_.as_deref(), Some("fix"));
    assert_eq!(m.description.as_deref(), Some("correct bug"));
}

#[test]
fn hash_footer() {
    let m = Message::new(String::from("feat: x\n\nCloses #123"));
    let footers = m.footers.expect("footers");
    assert_eq!(footers.len(), 1);
    assert_eq!(footers[0].0, "Closes");
    assert_eq!(footers[0].1, "123");
    assert!(m.body.is_none());
}

#[test]
fn duplicate_footer_tokens_are_kept_in_order() {
    let m = Message::new(String::from("feat: x\n\nRefs: a\nRefs: b"));
    let footers = m.footers.expect("footers");
    assert_eq!(footers.len(), 2);
    assert_eq!(footers[0], (String::from("Refs"), String::from("a")));
    assert_eq!(footers[1], (String::from("Refs"), String::from("b")));
}

#[test]
fn footer_block_ends_at_first_non_matching_line() {
    let m = Message::new(String::from("feat: x\n\nNote: this has a colon\nplain line\nRefs: 1"));
    assert_eq!(m.body.as_deref(), Some("Note: this has a colon\nplain line"));
    let footers = m.footers.expect("footers");
    assert_eq!(footers.len(), 1);
    assert_eq!(footers[0].0, "Refs");
}

#[test]
fn token_with_space_is_no_footer() {
    let m = Message::new(String::from("feat: x\n\nSome token: value"));
    assert!(m.footers.is_none());
    assert_eq!(m.body.as_deref(), Some("Some token: value"));
}

#[test]
fn trailing_newline_does_not_hide_footers() {
    let m = Message::new(String::from("feat: x\n\nBREAKING CHANGE: changes API\n"));
    let footers = m.footers.expect("footers");
    assert_eq!(footers.len(), 1);
    assert_eq!(footers[0].0, "BREAKING CHANGE");
}

#[test]
fn multi_paragraph_body() {
    let m = Message::new(String::from("fix: y\n\nfirst paragraph\n\nsecond paragraph"));
    assert_eq!(m.body.as_deref(), Some("first paragraph\n\nsecond paragraph"));
    assert!(m.footers.is_none());
}

#[test]
fn blank_lines_around_body_are_dropped() {
    let m = Message::new(String::from("fix: y\n\n\n  \nbody text\n   \n\n"));
    assert_eq!(m.body.as_deref(), Some("body text"));
    assert!(m.footers.is_none());
}

#[test]
fn footers_only_message() {
    let m = Message::new(String::from("fix: y\n\nReviewed-by: someone\nRefs #42"));
    assert!(m.body.is_none());
    let footers = m.footers.expect("footers");
    assert_eq!(footers.len(), 2);
    assert_eq!(footers[0], (String::from("Reviewed-by"), String::from("someone")));
    assert_eq!(footers[1], (String::from("Refs"), String::from("42")));
}

#[test]
fn raw_is_kept_unchanged() {
    let raw = String::from("feat: x\r\n\nbody \n\nRefs: 9\n");
    let m = Message::new(raw.clone());
    assert_eq!(m.raw, raw);
}

#[test]
fn parsing_never_fails_on_odd_inputs() {
    let inputs = vec![
        String::from("\n"),
        String::from("\n\n\n"),
        String::from(":"),
        String::from(": "),
        String::from(":  x"),
        String::from("!: x"),
        String::from("a!b: x"),
        String::from("t(: x"),
        String::from("t): x"),
        String::from("a: b #c"),
        String::from("   "),
        String::from("über(späße): ändern"),
    ];
    for raw in inputs {
        let m = Message::new(raw.clone());
        assert_eq!(m.raw, raw);
        assert!(m.subject.is_some());
    }
}

#[test]
fn footer_values_may_be_empty() {
    let m = Message::new(String::from("fix: y\n\nRefs: \nFixes #"));
    let footers = m.footers.expect("footers");
    assert_eq!(footers.len(), 2);
    assert_eq!(footers[0], (String::from("Refs"), String::new()));
    assert_eq!(footers[1], (String::from("Fixes"), String::new()));
}

#[test]
fn colon_inside_scope_is_allowed() {
    let m = Message::new(String::from("feat(a:b): x"));
    assert_eq!(m.type_.as_deref(), Some("feat"));
    assert_eq!(m.scope.as_deref(), Some("a:b"));
    assert_eq!(m.description.as_deref(), Some("x"));
}

#[test]
fn no_blank_line_means_no_body_and_no_footers() {
    let m = Message::new(String::from("feat: x\nRefs: 1"));
    assert!(m.body.is_none());
    assert!(m.footers.is_none());
    assert_eq!(m.subject.as_deref(), Some("feat: x\nRefs: 1"));
}
