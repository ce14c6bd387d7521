//! The transducer: identifier substitution, group recursion and separator
//! insertion.
//!
//! `rewrite` walks a token sequence once, left to right.  An identifier whose
//! text is the surface alias is replaced by the host binding keyword (keeping
//! its position), a group's contents are rewritten recursively before the
//! group is re-emitted, every other token passes through unchanged, and a
//! lone `;` is synthesized between two adjacent input tokens exactly where
//! the local boundary predicate holds of them.

use vstd::prelude::*;
use vstd::string::StringExecFns;

use crate::token::Delim;
use crate::token::SpecToken;
use crate::token::Token;
use crate::token::lemma_tokens_view;
use crate::token::lemma_tokens_view_push;
use crate::token::token_view;
use crate::token::tokens_view;

verus! {

/// The surface-syntax alias that is substituted away.
pub open spec fn tb_text() -> Seq<char> {
    "tb"@
}

/// The host binding keyword put in the alias's place.
pub open spec fn let_text() -> Seq<char> {
    "let"@
}

/// The synthesized statement separator: a lone `;` with no meaningful
/// position.
pub open spec fn separator() -> SpecToken {
    SpecToken::Punct { ch: ';', joint: false, pos: 0 }
}

/// Whether an identifier text is one of the fixed statement-starting
/// keywords.  The set is a closed whitelist of the surface syntax.
pub open spec fn keyword_text(t: Seq<char>) -> bool {
    ||| t == "tb"@
    ||| t == "println"@
    ||| t == "if"@
    ||| t == "let"@
    ||| t == "loop"@
    ||| t == "match"@
    ||| t == "return"@
}

/// Whether a token can end a statement: literals, identifiers (classified by
/// their original kind, before any substitution) and parenthesized groups
/// can; punctuation and brace or bracket groups cannot.
pub open spec fn ends_statement(t: SpecToken) -> bool {
    match t {
        SpecToken::Literal { .. } => true,
        SpecToken::Ident { .. } => true,
        SpecToken::Punct { .. } => false,
        SpecToken::Group { delim, .. } => delim == Delim::Parenthesis,
    }
}

/// Whether a token can start a statement: only an identifier whose text is
/// in the keyword whitelist.
pub open spec fn starts_statement(t: SpecToken) -> bool {
    match t {
        SpecToken::Ident { text, .. } => keyword_text(text),
        _ => false,
    }
}

/// The boundary predicate: a separator belongs between `cur` and `nxt` when
/// `cur` can end a statement and `nxt` can start one.  The decision is purely
/// local, on the two original input tokens.
pub open spec fn spec_needs_separator(cur: SpecToken, nxt: SpecToken) -> bool {
    ends_statement(cur) && starts_statement(nxt)
}

/// Whether a separator is inserted after position `i` of `ts`: there must be
/// a next token, and the boundary predicate must hold of the original pair.
pub open spec fn sep_after(ts: Seq<SpecToken>, i: int) -> bool {
    0 <= i && i + 1 < ts.len() && spec_needs_separator(ts[i], ts[i + 1])
}

/// What one token is rewritten to: the alias becomes the binding keyword at
/// the alias's own position, a group keeps its delimiter and position around
/// its rewritten contents, and everything else is unchanged.
pub open spec fn rewrite_token(t: SpecToken) -> SpecToken
    decreases t, 0int,
{
    match t {
        SpecToken::Ident { text, pos } => if text == tb_text() {
            SpecToken::Ident { text: let_text(), pos }
        } else {
            t
        },
        SpecToken::Group { delim, inner, pos } => SpecToken::Group {
            delim,
            inner: rewrite_from(inner, 0),
            pos,
        },
        _ => t,
    }
}

/// The rewrite of `ts` from position `i` on: each token's rewrite in order,
/// with the separator spliced in after position `i` exactly when
/// `sep_after(ts, i)` holds.
pub open spec fn rewrite_from(ts: Seq<SpecToken>, i: int) -> Seq<SpecToken>
    decreases ts, ts.len() - i + 1,
{
    if i < 0 || i >= ts.len() {
        Seq::empty()
    } else if sep_after(ts, i) {
        seq![rewrite_token(ts[i]), separator()] + rewrite_from(ts, i + 1)
    } else {
        seq![rewrite_token(ts[i])] + rewrite_from(ts, i + 1)
    }
}

/// The whole transducer, as a mathematical function on token models.
pub open spec fn rewrite_seq(ts: Seq<SpecToken>) -> Seq<SpecToken> {
    rewrite_from(ts, 0)
}

/// Whether an identifier text equals a given keyword.
fn text_is(text: &String, kw: &str) -> (r: bool)
    ensures
        r == (text@ == kw@),
{
    let k = String::from_str(kw);
    *text == k
}

/// Whether an identifier text is in the statement-starting keyword
/// whitelist.
pub fn is_keyword_text(text: &String) -> (r: bool)
    ensures
        r == keyword_text(text@),
{
    text_is(text, "tb") || text_is(text, "println") || text_is(text, "if") || text_is(text, "let")
        || text_is(text, "loop") || text_is(text, "match") || text_is(text, "return")
}

/// The boundary predicate on concrete tokens: whether a separator belongs
/// between `cur` and `nxt`.
pub fn needs_separator(cur: &Token, nxt: &Token) -> (r: bool)
    ensures
        r == spec_needs_separator(token_view(*cur), token_view(*nxt)),
{
    let cur_ends = match cur {
        Token::Literal { .. } => true,
        Token::Ident { .. } => true,
        Token::Punct { .. } => false,
        Token::Group { delim, .. } => *delim == Delim::Parenthesis,
    };
    let nxt_starts = match nxt {
        Token::Ident { text, .. } => is_keyword_text(text),
        _ => false,
    };
    cur_ends && nxt_starts
}

/// The transducer.  It is total: any token sequence is rewritten, and the
/// result is exactly the model-level `rewrite_seq` of the input's model.
pub fn rewrite(input: &Vec<Token>) -> (out: Vec<Token>)
    ensures
        tokens_view(out@) == rewrite_seq(tokens_view(input@)),
    decreases input@,
{
    let ghost sts = tokens_view(input@);
    proof {
        lemma_tokens_view(input@);
    }
    let mut out: Vec<Token> = Vec::new();
    let mut i: usize = 0;
    proof {
        assert(tokens_view(out@) + rewrite_from(sts, 0) =~= rewrite_from(sts, 0));
    }
    while i < input.len()
        invariant
            i <= input@.len(),
            sts == tokens_view(input@),
            sts.len() == input@.len(),
            forall|j: int| 0 <= j < input@.len() ==> sts[j] == token_view(input@[j]),
            tokens_view(out@) + rewrite_from(sts, i as int) == rewrite_seq(sts),
        decreases input@.len() - i,
    {
        let ghost out0 = out@;
        let t = &input[i];
        match t {
            Token::Ident { text, pos } => {
                if text_is(text, "tb") {
                    out.push(Token::Ident { text: String::from_str("let"), pos: *pos });
                } else {
                    out.push(Token::Ident { text: text.clone(), pos: *pos });
                }
            },
            Token::Literal { text, pos } => {
                out.push(Token::Literal { text: text.clone(), pos: *pos });
            },
            Token::Punct { ch, joint, pos } => {
                out.push(Token::Punct { ch: *ch, joint: *joint, pos: *pos });
            },
            Token::Group { delim, inner, pos } => {
                let ri = rewrite(inner);
                out.push(Token::Group { delim: *delim, inner: ri, pos: *pos });
            },
        }
        proof {
            lemma_tokens_view_push(out0, out@[out0.len() as int]);
            assert(token_view(out@[out0.len() as int]) == rewrite_token(sts[i as int]));
        }
        if i + 1 < input.len() {
            if needs_separator(&input[i], &input[i + 1]) {
                let ghost out1 = out@;
                out.push(Token::Punct { ch: ';', joint: false, pos: 0 });
                proof {
                    lemma_tokens_view_push(out1, out@[out1.len() as int]);
                }
            }
        }
        proof {
            assert(tokens_view(out@) + rewrite_from(sts, i + 1) =~= tokens_view(out0)
                + rewrite_from(sts, i as int));
        }
        i = i + 1;
    }
    out
}

} // verus!
