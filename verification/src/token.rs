//! The token data model and its mathematical view.

use vstd::prelude::*;

verus! {

/// Which bracket pair a group token carries.  `Implicit` stands for a group
/// with no visible delimiter.
#[derive(Clone, Copy, PartialEq, Eq, Structural, Debug)]
pub enum Delim {
    Parenthesis,
    Brace,
    Bracket,
    Implicit,
}

/// An atomic lexical unit.  A token carries a source position, which the
/// rewriter only threads through for diagnostic fidelity; it never computes
/// with it.  A `Group` owns the ordered token sequence enclosed by one
/// matched bracket pair.
#[derive(Debug, PartialEq, Eq)]
pub enum Token {
    Ident { text: String, pos: u32 },
    Literal { text: String, pos: u32 },
    Punct { ch: char, joint: bool, pos: u32 },
    Group { delim: Delim, inner: Vec<Token>, pos: u32 },
}

/// The mathematical model of a token: identifier and literal texts become
/// character sequences and a group's contents become a `Seq` of models.
pub ghost enum SpecToken {
    Ident { text: Seq<char>, pos: u32 },
    Literal { text: Seq<char>, pos: u32 },
    Punct { ch: char, joint: bool, pos: u32 },
    Group { delim: Delim, inner: Seq<SpecToken>, pos: u32 },
}

/// The model of one token, descending into groups.
pub open spec fn token_view(t: Token) -> SpecToken
    decreases t, 0int,
{
    match t {
        Token::Ident { text, pos } => SpecToken::Ident { text: text@, pos },
        Token::Literal { text, pos } => SpecToken::Literal { text: text@, pos },
        Token::Punct { ch, joint, pos } => SpecToken::Punct { ch, joint, pos },
        Token::Group { delim, inner, pos } => SpecToken::Group {
            delim,
            inner: tokens_view_from(inner@, 0),
            pos,
        },
    }
}

/// The models of the tokens of `ts` from position `i` on, in order.
pub open spec fn tokens_view_from(ts: Seq<Token>, i: int) -> Seq<SpecToken>
    decreases ts, ts.len() - i + 1,
{
    if i < 0 || i >= ts.len() {
        Seq::empty()
    } else {
        seq![token_view(ts[i])] + tokens_view_from(ts, i + 1)
    }
}

/// The model of a token sequence.
pub open spec fn tokens_view(ts: Seq<Token>) -> Seq<SpecToken> {
    tokens_view_from(ts, 0)
}

/// `tokens_view_from(ts, i)` holds exactly the models of `ts[i..]`, index by
/// index.
pub proof fn lemma_tokens_view_from(ts: Seq<Token>, i: int)
    requires
        0 <= i <= ts.len(),
    ensures
        tokens_view_from(ts, i).len() == ts.len() - i,
        forall|j: int|
            i <= j < ts.len() ==> tokens_view_from(ts, i)[j - i] == token_view(ts[j]),
    decreases ts.len() - i,
{
    if i < ts.len() {
        lemma_tokens_view_from(ts, i + 1);
    }
}

/// The model of a sequence indexes pointwise into the models of its tokens.
pub proof fn lemma_tokens_view(ts: Seq<Token>)
    ensures
        tokens_view(ts).len() == ts.len(),
        forall|j: int| 0 <= j < ts.len() ==> tokens_view(ts)[j] == token_view(ts[j]),
{
    lemma_tokens_view_from(ts, 0);
}

/// Appending a token to a sequence appends its model to the sequence's model.
pub proof fn lemma_tokens_view_push(ts: Seq<Token>, t: Token)
    ensures
        tokens_view(ts.push(t)) == tokens_view(ts).push(token_view(t)),
{
    lemma_tokens_view(ts);
    lemma_tokens_view(ts.push(t));
    assert(tokens_view(ts.push(t)) =~= tokens_view(ts).push(token_view(t)));
}

} // verus!
