use toml_query::error::Error;
use toml_query::tokenizer::{tokenize_with_seperator, Token};

fn ident(s: &str) -> Token {
    Token::Identifier {
        ident: s.to_string(),
    }
}

fn index(idx: usize, text: &str) -> Token {
    Token::Index {
        idx,
        text: text.to_string(),
    }
}

#[test]
fn tokenize_single_identifier() {
    let toks = tokenize_with_seperator("abc", '.').unwrap();
    assert_eq!(toks, vec![ident("abc")]);
}

#[test]
fn tokenize_mixed_path() {
    let toks = tokenize_with_seperator("a.[0].b", '.').unwrap();
    assert_eq!(toks, vec![ident("a"), index(0, "[0]"), ident("b")]);
}

#[test]
fn tokenize_single_bracketed_index() {
    let toks = tokenize_with_seperator("[12]", '.').unwrap();
    assert_eq!(toks, vec![index(12, "[12]")]);
}

#[test]
fn tokenize_custom_separator() {
    let toks = tokenize_with_seperator("a/b.c", '/').unwrap();
    assert_eq!(toks, vec![ident("a"), ident("b.c")]);
}

#[test]
fn tokenize_empty_query_fails() {
    let res = tokenize_with_seperator("", '.');
    assert_eq!(res, Err(Error::EmptyQueryError));
}

#[test]
fn tokenize_leading_separator_fails() {
    let res = tokenize_with_seperator(".a", '.');
    assert_eq!(res, Err(Error::EmptyIdentifier));
}

#[test]
fn tokenize_trailing_separator_fails() {
    let res = tokenize_with_seperator("a.", '.');
    assert_eq!(res, Err(Error::EmptyIdentifier));
}

#[test]
fn tokenize_consecutive_separators_fail() {
    let res = tokenize_with_seperator("a..b", '.');
    assert_eq!(res, Err(Error::EmptyIdentifier));
}

#[test]
fn tokenize_empty_brackets_fail() {
    let res = tokenize_with_seperator("a.[]", '.');
    assert_eq!(res, Err(Error::ArrayAccessWithoutIndex));
}

#[test]
fn tokenize_non_numeric_index_fails() {
    let res = tokenize_with_seperator("a.[abc]", '.');
    assert_eq!(res, Err(Error::ArrayAccessWithInvalidIndex));
}

#[test]
fn tokenize_mixed_bracket_content_fails() {
    let res = tokenize_with_seperator("[1x]", '.');
    assert_eq!(res, Err(Error::ArrayAccessWithInvalidIndex));
}

#[test]
fn tokenize_huge_index_fails() {
    let res = tokenize_with_seperator("[99999999999999999999999999]", '.');
    assert_eq!(res, Err(Error::ArrayAccessWithInvalidIndex));
}

#[test]
fn tokenize_unclosed_bracket_is_identifier() {
    let toks = tokenize_with_seperator("[3", '.').unwrap();
    assert_eq!(toks, vec![ident("[3")]);
}

#[test]
fn tokenize_brackets_inside_identifier_stay_verbatim() {
    let toks = tokenize_with_seperator("a[0]b", '.').unwrap();
    assert_eq!(toks, vec![ident("a[0]b")]);
}

#[test]
fn tokenize_first_error_wins() {
    let res = tokenize_with_seperator("a.[].b..c", '.');
    assert_eq!(res, Err(Error::ArrayAccessWithoutIndex));
}

#[test]
fn tokenize_leading_zeros_keep_text() {
    let toks = tokenize_with_seperator("a.[007]", '.').unwrap();
    assert_eq!(toks, vec![ident("a"), index(7, "[007]")]);
}

#[test]
fn rejoining_tokens_reproduces_the_query() {
    let query = "a.[0].b";
    let toks = tokenize_with_seperator(query, '.').unwrap();

    let mut rejoined = String::new();
    for (i, tok) in toks.iter().enumerate() {
        if i > 0 {
            rejoined.push('.');
        }
        match tok {
            Token::Identifier { ident } => rejoined.push_str(ident),
            Token::Index { idx: _, text } => rejoined.push_str(text),
        }
    }
    assert_eq!(rejoined, query);

    let again = tokenize_with_seperator(&rejoined, '.').unwrap();
    assert_eq!(again, toks);
}
