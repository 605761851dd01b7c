use nix_doc::SearchResult;
use nix_doc::TestMultiplyArgs;
use nix_doc::get_function_docs;
use nix_doc::pprint::ParamPiece;
use nix_doc::pprint::render_params;
use nix_doc::util::test_multiply;

#[test]
fn end_to_end_named_binding() {
    let source = "{\n  # Adds two numbers.\n  add = a: b: a + b;\n}\n";
    // Line 3, column 9 points at the `a` of `a: b:`.
    let result = get_function_docs(source, "test.nix", 3, 9);
    let text = result.expect("a function should be found");
    assert_eq!(
        text,
        "**Synopsis:** `add` = a: \n\tb: ...\n\nAdds two numbers.\n\n# test.nix:3"
    );
}

#[test]
fn end_to_end_anonymous_lambda() {
    let source = "a: 3";
    let result = get_function_docs(source, "anon.nix", 1, 0);
    let text = result.expect("a function should be found");
    assert!(text.starts_with("**Synopsis:** `<unknown binding>` = a: ..."));
}

#[test]
fn end_to_end_pattern_parameter() {
    let source = "{\n  f = { a, b ? 4, ... }: a;\n}\n";
    let result = get_function_docs(source, "pat.nix", 2, 8);
    let text = result.expect("a function should be found");
    assert!(text.contains("`f`"));
    assert!(text.contains("a,"));
    assert!(text.contains("..."));
}

#[test]
fn no_function_at_position_yields_none() {
    let source = "{\n  x = 3;\n}\n";
    assert!(get_function_docs(source, "none.nix", 2, 3).is_none());
}

#[test]
fn unparsable_source_yields_none() {
    assert!(get_function_docs("{{{{", "bad.nix", 1, 1).is_none());
}

#[test]
fn position_past_last_line_yields_none() {
    let source = "{\n  add = a: b: a + b;\n}\n";
    assert!(get_function_docs(source, "far.nix", 99, 1).is_none());
}

#[test]
fn position_past_end_of_text_yields_none() {
    let source = "a: 3";
    assert!(get_function_docs(source, "edge.nix", 1, 3).is_none());
}

#[test]
fn curried_synopsis_renders_two_parameters() {
    let pss = vec![
        vec![ParamPiece::Node {
            text: "a".to_string(),
            is_pat_entry: false,
        }],
        vec![ParamPiece::Node {
            text: "b".to_string(),
            is_pat_entry: false,
        }],
    ];
    assert_eq!(render_params(&pss), "a: \n\tb: ...");
}

#[test]
fn format_renders_the_fixed_template() {
    let r = SearchResult {
        identifier: "add".to_string(),
        doc: "Adds.".to_string(),
        param_block: "a: ...".to_string(),
    };
    assert_eq!(
        r.format("lib/math.nix", 42),
        "**Synopsis:** `add` = a: ...\n\nAdds.\n\n# lib/math.nix:42"
    );
}

#[test]
fn multiply_self_test() {
    assert_eq!(test_multiply(TestMultiplyArgs { a: 6, b: 7 }), 42);
}
