use kompass::tokens::{lex, looks_like_char_literal};

#[test]
fn comments_and_whitespace_do_not_change_token_count() {
    let plain = lex("fn f(value: i32) -> i32 { value + 1 }").unwrap();
    let decorated = lex(
        "/// documentation\nfn /* between */ f( value: i32 ) -> i32 {\n  // keep this readable\n  value + 1\n}\n/** trailing docs */",
    )
    .unwrap();

    assert_eq!(plain.total_tokens(), decorated.total_tokens());
}

#[test]
fn punctuation_and_delimiters_are_counted_individually() {
    let source = lex("fn f<'a>(value: &'a str) -> Option<&'a str> { Some(value) }").unwrap();

    // `->`, `&`, `::`-style punctuation, and all delimiters are retained
    // as individual lexical tokens. The exact total protects the score's
    // deliberately frozen convention.
    assert_eq!(source.total_tokens(), 29);
}

#[test]
fn literals_lifetimes_unicode_and_compound_punctuation_have_fixed_counts() {
    assert_eq!(lex(r##"r#"a -> b"#"##).unwrap().total_tokens(), 1);
    assert_eq!(lex("'a").unwrap().total_tokens(), 2);
    assert_eq!(lex("λ").unwrap().total_tokens(), 1);
    assert_eq!(lex("'\\''").unwrap().total_tokens(), 1);
    assert_eq!(lex("-> => ..=").unwrap().total_tokens(), 7);
    assert_eq!(lex("(λ)").unwrap().total_tokens(), 3);
}

#[test]
fn comment_markers_inside_literals_and_comments_are_not_reinterpreted() {
    let source = r##"fn f<'a>(value: &'a str) {
            let raw = r#"/// keep this literal /* intact */"#;
            let character = 'λ';
            /* ordinary comment containing /// and a doc marker spelling */
            let _ = (value, raw, character);
        }"##;
    let without_comments = r##"fn f<'a>(value: &'a str) {
            let raw = r#"/// keep this literal /* intact */"#;
            let character = 'λ';
            let _ = (value, raw, character);
        }"##;

    assert_eq!(
        lex(source).unwrap().total_tokens(),
        lex(without_comments).unwrap().total_tokens()
    );
    assert_eq!(
        lex("/* outer /* inner */ still outer */ fn f() {}")
            .unwrap()
            .total_tokens(),
        lex("fn f() {}").unwrap().total_tokens()
    );
    assert_eq!(
        lex("/** outer /* nested */ still outer */ fn f() {}")
            .unwrap()
            .total_tokens(),
        lex("fn f() {}").unwrap().total_tokens()
    );
}

#[test]
fn macro_bodies_and_literals_are_counted_without_expansion() {
    let source = lex(
        r##"fn f() { println!(r#"a -> b"#); macro_rules! local { ($x:expr) => { $x } } }"##,
    )
    .unwrap();

    assert!(source.total_tokens() > 20);
}

#[test]
fn char_literals_are_bounded_and_distinguish_lifetimes_and_labels() {
    for source in [
        "'λ'",
        "'\\u{1_F980}'",
        "'\\u{41_}'",
        "'\\x41'",
        "'\\''",
        "'\\n'",
    ] {
        assert!(
            looks_like_char_literal(source.as_bytes(), 0),
            "expected {source:?} to be a char literal"
        );
    }

    for source in [
        "'a",
        "'label:",
        "'\\u{}'",
        "'\\u{not-hex}'",
        "'\\u{1-2}'",
        "'\\x4'",
        "'\\q'",
    ] {
        assert!(
            !looks_like_char_literal(source.as_bytes(), 0),
            "expected {source:?} not to be a char literal"
        );
    }

    let mut malformed = vec![b'\'', b'\\', b'u', b'{'];
    malformed.extend(std::iter::repeat_n(b'0', 1024));
    assert!(!looks_like_char_literal(&malformed, 0));
    assert!(!looks_like_char_literal(b"", 0));
    assert!(!looks_like_char_literal(b"x'a'", 0));
}

#[test]
fn raw_strings_and_nested_doc_comments_keep_comment_markers_opaque() {
    let source = r####"/// ignored documentation
fn render() {
    let raw = br###"/// this stays in the literal /* and here */"###;
    /** outer doc /* nested doc */ still outer */
    let value = 1;
}
"####;
    let without_docs = r####"fn render() {
    let raw = br###"/// this stays in the literal /* and here */"###;
    let value = 1;
}
"####;

    assert_eq!(
        lex(source).unwrap().total_tokens(),
        lex(without_docs).unwrap().total_tokens()
    );
}
