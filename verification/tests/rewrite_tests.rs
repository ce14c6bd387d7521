use rstv::rewrite::rewrite;
use rstv::token::Delim;
use rstv::token::Token;

fn ident(text: &str, pos: u32) -> Token {
    Token::Ident { text: text.to_string(), pos }
}

fn literal(text: &str, pos: u32) -> Token {
    Token::Literal { text: text.to_string(), pos }
}

fn punct(ch: char, joint: bool, pos: u32) -> Token {
    Token::Punct { ch, joint, pos }
}

fn group(delim: Delim, inner: Vec<Token>, pos: u32) -> Token {
    Token::Group { delim, inner, pos }
}

fn sep() -> Token {
    punct(';', false, 0)
}

#[test]
fn empty_input_gives_empty_output() {
    let out = rewrite(&vec![]);
    assert_eq!(out, vec![]);
}

#[test]
fn single_alias_is_substituted() {
    let out = rewrite(&vec![ident("tb", 7)]);
    assert_eq!(out, vec![ident("let", 7)]);
}

#[test]
fn single_literal_passes_through() {
    let out = rewrite(&vec![literal("10", 3)]);
    assert_eq!(out, vec![literal("10", 3)]);
}

#[test]
fn two_bindings_get_one_separator() {
    // tb x 10 tb y 20  ->  let x 10 ; let y 20
    let input = vec![
        ident("tb", 1),
        ident("x", 2),
        literal("10", 3),
        ident("tb", 4),
        ident("y", 5),
        literal("20", 6),
    ];
    let expected = vec![
        ident("let", 1),
        ident("x", 2),
        literal("10", 3),
        sep(),
        ident("let", 4),
        ident("y", 5),
        literal("20", 6),
    ];
    assert_eq!(rewrite(&input), expected);
}

#[test]
fn parenthesized_call_then_keyword() {
    // println ( x ) if y { z }  ->  println ( x ) ; if y { z }
    let input = vec![
        ident("println", 1),
        group(Delim::Parenthesis, vec![ident("x", 2)], 3),
        ident("if", 4),
        ident("y", 5),
        group(Delim::Brace, vec![ident("z", 6)], 7),
    ];
    let expected = vec![
        ident("println", 1),
        group(Delim::Parenthesis, vec![ident("x", 2)], 3),
        sep(),
        ident("if", 4),
        ident("y", 5),
        group(Delim::Brace, vec![ident("z", 6)], 7),
    ];
    assert_eq!(rewrite(&input), expected);
}

#[test]
fn nested_group_is_rewritten_independently() {
    // tb x { tb y 5 }  ->  let x { let y 5 }
    let input = vec![
        ident("tb", 1),
        ident("x", 2),
        group(Delim::Brace, vec![ident("tb", 3), ident("y", 4), literal("5", 5)], 6),
    ];
    let expected = vec![
        ident("let", 1),
        ident("x", 2),
        group(Delim::Brace, vec![ident("let", 3), ident("y", 4), literal("5", 5)], 6),
    ];
    assert_eq!(rewrite(&input), expected);
}

#[test]
fn adjacent_plain_identifiers_get_no_separator() {
    // foo bar  ->  foo bar (bar is not in the keyword whitelist)
    let input = vec![ident("foo", 1), ident("bar", 2)];
    let expected = vec![ident("foo", 1), ident("bar", 2)];
    assert_eq!(rewrite(&input), expected);
}

#[test]
fn triple_nested_brackets_rewrite_innermost_first() {
    // [ { ( tb z 1 tb w 2 ) } ]: the innermost sequence gets both the
    // substitution and its separator; the enclosing groups keep their
    // delimiters and positions.
    let innermost = vec![
        ident("tb", 10),
        ident("z", 11),
        literal("1", 12),
        ident("tb", 13),
        ident("w", 14),
        literal("2", 15),
    ];
    let input = vec![
        group(
            Delim::Bracket,
            vec![group(Delim::Brace, vec![group(Delim::Parenthesis, innermost, 3)], 2)],
            1,
        ),
    ];
    let expected_innermost = vec![
        ident("let", 10),
        ident("z", 11),
        literal("1", 12),
        sep(),
        ident("let", 13),
        ident("w", 14),
        literal("2", 15),
    ];
    let expected = vec![
        group(
            Delim::Bracket,
            vec![group(Delim::Brace, vec![group(Delim::Parenthesis, expected_innermost, 3)], 2)],
            1,
        ),
    ];
    assert_eq!(rewrite(&input), expected);
}

#[test]
fn no_separator_after_brace_group() {
    // { a } if x: a brace group does not end a statement.
    let input = vec![
        group(Delim::Brace, vec![ident("a", 1)], 2),
        ident("if", 3),
        ident("x", 4),
    ];
    assert_eq!(rewrite(&input), input);
}

#[test]
fn separator_after_paren_group_before_every_keyword() {
    for kw in ["tb", "println", "if", "let", "loop", "match", "return"] {
        let input = vec![group(Delim::Parenthesis, vec![], 1), ident(kw, 2)];
        let out = rewrite(&input);
        assert_eq!(out.len(), 3, "keyword {kw}");
        assert_eq!(out[1], sep(), "keyword {kw}");
    }
}

#[test]
fn punctuation_never_ends_a_statement() {
    // x + if y: the `+` right before `if` suppresses the separator.
    let input = vec![ident("x", 1), punct('+', false, 2), ident("if", 3), ident("y", 4)];
    let out = rewrite(&input);
    // one separator: between x and... none, since `+` follows x and `if`
    // follows `+`; the pair (x, +) fails the keyword check and the pair
    // (+, if) fails the ends-statement check.
    assert_eq!(out, input);
}

#[test]
fn joint_punctuation_passes_through_unchanged() {
    let input = vec![punct(':', true, 1), punct(':', false, 2), literal("3", 3)];
    assert_eq!(rewrite(&input), input);
}

#[test]
fn substituted_alias_still_triggers_boundary() {
    // x tb: the identifier x ends a statement and tb starts one, so a
    // separator lands between them even though tb is itself substituted.
    let input = vec![ident("x", 1), ident("tb", 2)];
    let expected = vec![ident("x", 1), sep(), ident("let", 2)];
    assert_eq!(rewrite(&input), expected);
}

#[test]
fn alias_text_must_match_exactly() {
    // tbx and Tb are not the alias.
    let input = vec![ident("tbx", 1), ident("Tb", 2)];
    assert_eq!(rewrite(&input), input);
}

#[test]
fn empty_group_is_kept() {
    let input = vec![group(Delim::Parenthesis, vec![], 5)];
    assert_eq!(rewrite(&input), input);
}
