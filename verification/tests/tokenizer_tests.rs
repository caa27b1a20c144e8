use minishell::echo_line;
use minishell::tokenize;
use minishell::SpecialChar;

fn toks(input: &str) -> Vec<String> {
    tokenize(input)
}

#[test]
fn whitespace_collapses() {
    assert_eq!(toks("echo hello   world"), vec!["echo", "hello", "world"]);
}

#[test]
fn single_quotes_preserve_spaces() {
    assert_eq!(toks("echo 'a  b' c"), vec!["echo", "a  b", "c"]);
}

#[test]
fn single_quote_literal_inside_double_quotes() {
    assert_eq!(toks("echo \"it's\" fine"), vec!["echo", "it's", "fine"]);
}

#[test]
fn double_quotes_preserve_spaces() {
    assert_eq!(toks("echo \"a  b\"  c"), vec!["echo", "a  b", "c"]);
}

#[test]
fn double_quote_literal_inside_single_quotes() {
    assert_eq!(toks("echo 'say \"hi\"'"), vec!["echo", "say \"hi\""]);
}

#[test]
fn empty_line_has_no_tokens() {
    assert_eq!(toks(""), Vec::<String>::new());
}

#[test]
fn whitespace_only_line_has_no_tokens() {
    assert_eq!(toks("     "), Vec::<String>::new());
}

#[test]
fn trailing_newline_is_trimmed() {
    assert_eq!(toks("echo hi\n"), vec!["echo", "hi"]);
}

#[test]
fn unterminated_quote_keeps_buffered_text() {
    assert_eq!(toks("echo 'abc"), vec!["echo", "abc"]);
}

#[test]
fn empty_quotes_emit_nothing() {
    assert_eq!(toks("''"), Vec::<String>::new());
}

#[test]
fn adjacent_quoted_pieces_form_one_token() {
    assert_eq!(toks("ab'cd'ef"), vec!["abcdef"]);
}

#[test]
fn rejoined_clean_tokens_tokenize_to_themselves() {
    let first = toks("echo hello   world");
    let rejoined = echo_line(&first);
    assert_eq!(rejoined, "echo hello world");
    assert_eq!(tokenize(&rejoined), first);
}

#[test]
fn from_char_classifies_quotes() {
    assert!(matches!(SpecialChar::from_char('\''), Some(SpecialChar::SingleQuote)));
    assert!(matches!(SpecialChar::from_char('"'), Some(SpecialChar::DoubleQuote)));
    assert!(SpecialChar::from_char('a').is_none());
    assert!(SpecialChar::from_char(' ').is_none());
}
