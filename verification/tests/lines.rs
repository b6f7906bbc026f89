use kompass::lines::classify_lines;

#[test]
fn line_counts_distinguish_code_comments_and_blank_lines() {
    let counts = classify_lines("fn f() {}\n\n// comment\n/* block\n * comment\n */\n").counts;
    assert_eq!(counts.total, 6);
    assert_eq!(counts.code, 1);
    assert_eq!(counts.comments, 4);
    assert_eq!(counts.blank, 1);
}

#[test]
fn line_counts_handle_nested_comments_and_literal_markers() {
    let source = "let text = \"/* not comment */ //\"; // trailing\n/* outer\n   /* nested */\n   still */\nlet raw = r###\"// not comment\nstill\"###;\nlet character = 'λ';\n";
    let counts = classify_lines(source).counts;

    assert_eq!(counts.total, 7);
    assert_eq!(counts.code, 4);
    assert_eq!(counts.comments, 3);
    assert_eq!(counts.blank, 0);
}

#[test]
fn line_counts_keep_literal_and_comment_blank_lines_as_content() {
    let source = "let raw = r#\"first\n\nthird\"#;\n/* comment\n\nend */\n";
    let analysis = classify_lines(source);
    let counts = analysis.counts.clone();

    assert_eq!(counts.total, 6);
    assert_eq!(counts.code, 3);
    assert_eq!(counts.comments, 3);
    assert_eq!(counts.blank, 0);
    assert_eq!(analysis.code_lines_in_range(1, 6), 3);
    assert_eq!(analysis.code_lines_in_range(2, 2), 1);
    assert_eq!(analysis.code_lines_in_range(5, 5), 0);
    assert_eq!(analysis.code_lines_in_range(8, 9), 0);
}
