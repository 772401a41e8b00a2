use compiler_front::compiler_error::CompilerError;
use compiler_front::tokenizer::{
    assert_valid_symbol, frame_tokens, symbol_verdict, tokenize, SYMBOL_REGEX, TOKEN_REGEX,
};

fn stream(tokens: &[&str]) -> Vec<String> {
    tokens.iter().map(|t| t.to_string()).collect()
}

#[test]
fn the_patterns_are_the_language_s() {
    assert_eq!(TOKEN_REGEX, "\n[ \t]*|[-+*/%|&~^()=,]|\\w+|\".*?\"");
    assert_eq!(SYMBOL_REGEX, "^\\w+$");
}

#[test]
fn a_definition_is_cut_into_its_tokens() {
    assert_eq!(
        tokenize("i64 x = 1"),
        Some(stream(&["\n", "i64", "x", "=", "1", "\n"]))
    );
}

#[test]
fn empty_text_has_the_two_markers_only() {
    assert_eq!(tokenize(""), Some(stream(&["\n", "\n"])));
}

#[test]
fn newline_markers_keep_their_indentation() {
    assert_eq!(
        tokenize("a\n    b\n\t\tc\n"),
        Some(stream(&["\n", "a", "\n    ", "b", "\n\t\t", "c", "\n", "\n"]))
    );
}

#[test]
fn whitespace_inside_a_line_is_dropped() {
    assert_eq!(tokenize("    a  \t b"), Some(stream(&["\n", "a", "b", "\n"])));
    assert_eq!(tokenize("a\n  \n"), Some(stream(&["\n", "a", "\n  ", "\n", "\n"])));
}

#[test]
fn operators_and_punctuation_are_single_tokens() {
    assert_eq!(
        tokenize("-+*/%|&~^()=,"),
        Some(stream(&[
            "\n", "-", "+", "*", "/", "%", "|", "&", "~", "^", "(", ")", "=", ",", "\n"
        ]))
    );
    assert_eq!(
        tokenize("(a+b)*c"),
        Some(stream(&["\n", "(", "a", "+", "b", ")", "*", "c", "\n"]))
    );
}

#[test]
fn strings_end_at_the_next_quote() {
    assert_eq!(
        tokenize("\"a b\" + \"c\""),
        Some(stream(&["\n", "\"a b\"", "+", "\"c\"", "\n"]))
    );
    assert_eq!(tokenize("\"\""), Some(stream(&["\n", "\"\"", "\n"])));
}

#[test]
fn a_function_header_is_cut_into_its_tokens() {
    assert_eq!(
        tokenize("i64 f ( i64 a , i64 b )"),
        Some(stream(&["\n", "i64", "f", "(", "i64", "a", ",", "i64", "b", ")", "\n"]))
    );
}

#[test]
fn framing_puts_a_marker_at_each_end() {
    assert_eq!(frame_tokens(Vec::new()), stream(&["\n", "\n"]));
    assert_eq!(frame_tokens(stream(&["a", "\n", "b"])), stream(&["\n", "a", "\n", "b", "\n"]));
}

#[test]
fn word_characters_make_a_symbol() {
    assert_eq!(assert_valid_symbol(&"abc".to_string(), 1), Ok(()));
    assert_eq!(assert_valid_symbol(&"a_1".to_string(), 1), Ok(()));
    assert_eq!(assert_valid_symbol(&"_".to_string(), 1), Ok(()));
    assert_eq!(assert_valid_symbol(&"42".to_string(), 1), Ok(()));
    assert_eq!(assert_valid_symbol(&"né".to_string(), 1), Ok(()));
}

#[test]
fn anything_else_makes_no_symbol() {
    for bad in ["", "+", "a-b", "a b", "(", "\"a\"", "a\n", "\na", "a+"] {
        assert_eq!(
            assert_valid_symbol(&bad.to_string(), 5),
            Err(CompilerError::InvalidSymbol(5, bad.to_string())),
            "on {:?}",
            bad
        );
    }
}

#[test]
fn only_a_match_lets_a_symbol_pass() {
    let name = "x".to_string();
    assert_eq!(symbol_verdict(Some(true), &name, 3), Ok(()));
    assert_eq!(
        symbol_verdict(Some(false), &name, 3),
        Err(CompilerError::InvalidSymbol(3, "x".to_string()))
    );
    assert_eq!(
        symbol_verdict(None, &name, 3),
        Err(CompilerError::InvalidSymbol(3, "x".to_string()))
    );
}
