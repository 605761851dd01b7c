use nix_doc::DocToken;
use nix_doc::cleanup_comments;
use nix_doc::cleanup_single_line;
use nix_doc::dedent_comment;
use nix_doc::has_empty_line;

#[test]
fn test_comment_stripping() {
    let ex1 = vec![DocToken::Comment(
        "/* blah blah blah\n      foooo baaar\n   blah */".to_string(),
    )];
    assert_eq!(
        cleanup_comments(&ex1),
        "blah blah blah\n      foooo baaar\n   blah"
    );

    let ex2: Vec<DocToken> = ["# a1", "#    a2", "# aa"]
        .into_iter()
        .map(|s| DocToken::Comment(s.to_string()))
        .collect();
    assert_eq!(cleanup_comments(&ex2), "aa\n\n   a2\n\na1");
}

#[test]
fn test_dedent() {
    let ex1 = "a\n   b\n   c\n     d";
    assert_eq!(dedent_comment(ex1), ex1);
    let ex2 = "a\nb\nc";
    assert_eq!(dedent_comment(ex2), ex2);
    let ex3 = "   a\n   b\n\n     c";
    assert_eq!(dedent_comment(ex3), "a\nb\n\n  c");
}

#[test]
fn test_single_line_comment_stripping() {
    let ex1 = "    * a";
    let ex2 = "    # a";
    let ex3 = "   a";
    let ex4 = "   *";
    assert_eq!(cleanup_single_line(ex1), " a");
    assert_eq!(cleanup_single_line(ex2), " a");
    assert_eq!(cleanup_single_line(ex3), ex3);
    assert_eq!(cleanup_single_line(ex4), "");
}

#[test]
fn test_single_line_retains_bold_headings() {
    let ex1 = "   **Foo**:";
    assert_eq!(cleanup_single_line(ex1), ex1);
}

#[test]
fn blank_line_cuts_collection() {
    // Nearest-first: the comment above the binding, then whitespace with a
    // blank line, then an unrelated comment further up.
    let toks = vec![
        DocToken::Comment("# a1".to_string()),
        DocToken::Whitespace("\n\n".to_string()),
        DocToken::Comment("# unrelated".to_string()),
    ];
    assert_eq!(cleanup_comments(&toks), "a1");
}

#[test]
fn block_comment_after_single_lines_is_dropped() {
    let toks = vec![
        DocToken::Comment("# near".to_string()),
        DocToken::Whitespace("\n".to_string()),
        DocToken::Comment("/* belongs to something earlier */".to_string()),
    ];
    assert_eq!(cleanup_comments(&toks), "near");
}

#[test]
fn first_block_comment_taken_alone() {
    let toks = vec![
        DocToken::Comment("/* doc */".to_string()),
        DocToken::Whitespace("\n".to_string()),
        DocToken::Comment("# not part of it".to_string()),
    ];
    assert_eq!(cleanup_comments(&toks), "doc");
}

#[test]
fn no_comment_yields_empty() {
    let toks: Vec<DocToken> = vec![DocToken::Whitespace("\n".to_string())];
    assert_eq!(cleanup_comments(&toks), "");
    let none: Vec<DocToken> = vec![];
    assert_eq!(cleanup_comments(&none), "");
}

#[test]
fn dedent_is_idempotent_on_samples() {
    let samples = [
        "a\n   b\n   c\n     d",
        "   a\n   b\n\n     c",
        "  \n   ",
        "",
        "x",
        "\n\na\n  b\n",
    ];
    for s in samples {
        let once = dedent_comment(s);
        let twice = dedent_comment(&once);
        assert_eq!(twice, once);
    }
}

#[test]
fn whitespace_token_with_blank_line_detected() {
    assert!(has_empty_line(&DocToken::Whitespace("\n\n".to_string())));
    assert!(has_empty_line(&DocToken::Whitespace(" \n \n ".to_string())));
    assert!(!has_empty_line(&DocToken::Whitespace("\n".to_string())));
    assert!(!has_empty_line(&DocToken::Comment("#\n\n".to_string())));
}
