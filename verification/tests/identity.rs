use kompass::identity::{lexical_fingerprint, snapshot_id};
use kompass::model::{Language, Position};

#[test]
fn formatting_and_comments_do_not_change_fingerprint() {
    assert_eq!(
        lexical_fingerprint("if x { y() }", 0, 12, Language::Rust),
        lexical_fingerprint("if  x{/*comment*/y()}", 0, 21, Language::Rust)
    );
}

#[test]
fn token_boundaries_are_preserved() {
    assert_ne!(
        lexical_fingerprint("ab", 0, 2, Language::Python),
        lexical_fingerprint("a b", 0, 3, Language::Python)
    );
}

#[test]
fn literal_comment_markers_remain_literal() {
    let raw = r####"fn run() { let value = r###"contains " // and /* */"###; value }"####;
    let changed = r####"fn run() {
            let value = r###"contains " // and /* changed */"###;
            value
        }"####;
    assert_ne!(
        lexical_fingerprint(raw, 0, raw.len(), Language::Rust),
        lexical_fingerprint(changed, 0, changed.len(), Language::Rust)
    );
    let first = "let x = 'a; // still code";
    let second = "let x='a;// still code";
    assert_eq!(
        lexical_fingerprint(first, 0, first.len(), Language::Rust),
        lexical_fingerprint(second, 0, second.len(), Language::Rust)
    );
}

#[test]
fn raw_literals_do_not_expose_inner_quotes_as_comments() {
    let before = "let value = r###\"contains \" // one /* marker */\"###; value";
    let after = "let value=r###\"contains \" // two /* changed */\"###; value";
    assert_ne!(
        lexical_fingerprint(before, 0, before.len(), Language::Rust),
        lexical_fingerprint(after, 0, after.len(), Language::Rust)
    );
}

#[test]
fn python_prefixed_and_triple_literals_protect_hashes() {
    let before = "value = f\"\"\"# inside // text\"\"\"";
    let after = "value=f\"\"\"# inside // text\"\"\"";
    assert_eq!(
        lexical_fingerprint(before, 0, before.len(), Language::Python),
        lexical_fingerprint(after, 0, after.len(), Language::Python)
    );
}

#[test]
fn javascript_comments_and_templates_are_lexically_opaque() {
    let before = "const render = () => `// literal ${value}`; /* comment */ render();";
    let after = "const render=()=>`// literal ${value}`; /* changed */ render();";
    assert_eq!(
        lexical_fingerprint(before, 0, before.len(), Language::JavaScript),
        lexical_fingerprint(after, 0, after.len(), Language::JavaScript)
    );
    assert_eq!(
        lexical_fingerprint(before, 0, before.len(), Language::TypeScript),
        lexical_fingerprint(after, 0, after.len(), Language::TypeScript)
    );
}

#[test]
fn raw_c_literals_protect_quotes_and_comment_markers() {
    let before = r####"let value = cr###"contains " // marker /* one */"###; value"####;
    let after = r####"let value=cr###"contains " // changed /* two */"###; value"####;
    assert_ne!(
        lexical_fingerprint(before, 0, before.len(), Language::Rust),
        lexical_fingerprint(after, 0, after.len(), Language::Rust)
    );
}

#[test]
fn script_block_comments_end_at_the_first_closing_mark() {
    for language in [Language::JavaScript, Language::TypeScript] {
        assert_eq!(
            lexical_fingerprint("/* /* */ x", 0, 10, language),
            lexical_fingerprint("x", 0, 1, language)
        );
        assert_ne!(
            lexical_fingerprint("/* /* */ x */", 0, 13, language),
            lexical_fingerprint("x", 0, 1, language)
        );
    }
    assert_eq!(
        lexical_fingerprint("/* /* */ x */ y", 0, 15, Language::Rust),
        lexical_fingerprint("y", 0, 1, Language::Rust)
    );
}

#[test]
fn character_literals_are_one_lexeme() {
    let before = "let a = '\"'; /* one */ let b = '\"';";
    let after = "let a='\"'; /* two */ let b='\"';";
    assert_eq!(
        lexical_fingerprint(before, 0, before.len(), Language::Rust),
        lexical_fingerprint(after, 0, after.len(), Language::Rust)
    );
    for (first, second) in [
        ("' '", "'  '"),
        ("'\\n' // end", "'\\t' // end"),
        ("'\\x41'", "'\\x42'"),
        ("'\\u{1F600}'", "'\\u{1F601}'"),
        ("'\u{e9}' /* one */", "'\u{e8}' /* one */"),
    ] {
        assert_ne!(
            lexical_fingerprint(first, 0, first.len(), Language::Rust),
            lexical_fingerprint(second, 0, second.len(), Language::Rust)
        );
    }
    for (first, second) in [
        ("'\u{e9}' /* one */ x", "'\u{e9}'x"),
        ("'\\u{1F600}'// end", "'\\u{1F600}'"),
        ("fn f<'a>(x: &'a str)", "fn f< /* 'b' */ 'a>(x:&'a str)"),
    ] {
        assert_eq!(
            lexical_fingerprint(first, 0, first.len(), Language::Rust),
            lexical_fingerprint(second, 0, second.len(), Language::Rust)
        );
    }
}

#[test]
fn comments_between_any_lexemes_are_ignored() {
    for (language, plain, spaced) in [
        (Language::Rust, "a+b", "a/*x*/+/* /* y */ */b// end"),
        (Language::JavaScript, "a+b", "a/*x*/+// y\nb"),
        (Language::Python, "a+b", "a# x\n+# y\nb"),
    ] {
        assert_eq!(
            lexical_fingerprint(plain, 0, plain.len(), language),
            lexical_fingerprint(spaced, 0, spaced.len(), language)
        );
    }
}

#[test]
fn snapshots_of_neighbours_are_told_apart() {
    let end = Position { line: 9, column: 2 };
    let id = |column: usize| {
        snapshot_id(
            "src/lib.rs",
            Language::Rust,
            "function",
            "run",
            Position { line: 3, column },
            end,
            "declaration",
            "body",
        )
    };
    assert_eq!(id(4), id(4));
    assert_ne!(id(4), id(5));
    assert_ne!(id(14), id(15));
    assert!(id(4).starts_with("identity-v1:snapshot:"));
    let digits = &id(4)["identity-v1:snapshot:".len()..];
    assert_eq!(digits.len(), 16);
    assert!(digits
        .chars()
        .all(|digit| digit.is_ascii_digit() || ('a'..='f').contains(&digit)));
}

#[test]
fn character_literals_count_as_their_parts_where_these_are_clear() {
    for (source, digest) in [
        ("let a = 'x';", "9a55cb44f507afb3"),
        ("let a = '\"';", "8302182f89184421"),
        ("'\\u{1F600}'", "d96f4c7d3d7ff83d"),
    ] {
        let fingerprint = lexical_fingerprint(source, 0, source.len(), Language::Rust);
        assert!(fingerprint.ends_with(digest), "{source} is {fingerprint}");
    }
    let close = "m!('a' 'b' \"'\")";
    let apart = "m!( 'a'  /* ' */ 'b' \"'\" )";
    assert_eq!(
        lexical_fingerprint(close, 0, close.len(), Language::Rust),
        lexical_fingerprint(apart, 0, apart.len(), Language::Rust)
    );
}
