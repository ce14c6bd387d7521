use rstv::rewrite::is_keyword_text;
use rstv::rewrite::needs_separator;
use rstv::token::Delim;
use rstv::token::Token;

fn ident(text: &str, pos: u32) -> Token {
    Token::Ident { text: text.to_string(), pos }
}

#[test]
fn keyword_whitelist_is_exact() {
    for kw in ["tb", "println", "if", "let", "loop", "match", "return"] {
        assert!(is_keyword_text(&kw.to_string()), "keyword {kw}");
    }
    for other in ["x", "foo", "while", "fn", "else", "printlnn", "tbx", "Tb", "IF", ""] {
        assert!(!is_keyword_text(&other.to_string()), "non-keyword {other}");
    }
}

#[test]
fn boundary_needs_end_and_start() {
    let lit = Token::Literal { text: "10".to_string(), pos: 1 };
    let plain = ident("x", 2);
    let kw = ident("if", 3);
    let semi = Token::Punct { ch: ';', joint: false, pos: 4 };
    let paren = Token::Group { delim: Delim::Parenthesis, inner: vec![], pos: 5 };
    let brace = Token::Group { delim: Delim::Brace, inner: vec![], pos: 6 };
    let bracket = Token::Group { delim: Delim::Bracket, inner: vec![], pos: 7 };

    // enders followed by a keyword
    assert!(needs_separator(&lit, &kw));
    assert!(needs_separator(&plain, &kw));
    assert!(needs_separator(&kw, &kw));
    assert!(needs_separator(&paren, &kw));
    // non-enders followed by a keyword
    assert!(!needs_separator(&semi, &kw));
    assert!(!needs_separator(&brace, &kw));
    assert!(!needs_separator(&bracket, &kw));
    // enders followed by a non-keyword
    assert!(!needs_separator(&lit, &plain));
    assert!(!needs_separator(&plain, &lit));
    assert!(!needs_separator(&paren, &semi));
    assert!(!needs_separator(&lit, &paren));
}

#[test]
fn only_paren_groups_end_statements() {
    let kw = ident("let", 1);
    let implicit = Token::Group { delim: Delim::Implicit, inner: vec![], pos: 2 };
    assert!(!needs_separator(&implicit, &kw));
}

#[test]
fn next_literal_never_starts_statement() {
    // even a literal whose text spells a keyword does not start a statement:
    // classification is by token kind first
    let lit_kw = Token::Literal { text: "if".to_string(), pos: 1 };
    let x = ident("x", 2);
    assert!(!needs_separator(&x, &lit_kw));
}
