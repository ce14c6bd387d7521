//! Laws of the transducer, stated and proved over whole token sequences.
//!
//! The central fact is `lemma_rewrite_structure`: the rewritten sequence is
//! exactly the rewrites of the input tokens in order, with one separator
//! spliced in after position `i` precisely when the boundary predicate holds
//! of the original pair at `i` and `i + 1`, and nothing else anywhere.

use vstd::prelude::*;

use crate::rewrite::rewrite_from;
use crate::rewrite::rewrite_seq;
use crate::rewrite::rewrite_token;
use crate::rewrite::sep_after;
use crate::rewrite::separator;
use crate::rewrite::spec_needs_separator;
use crate::rewrite::tb_text;
use crate::rewrite::let_text;
use crate::token::Delim;
use crate::token::SpecToken;

verus! {

/// How many separators are synthesized before (the rewrite of) position `i`:
/// the number of positions `j < i` after which a separator is inserted.
pub open spec fn seps_before(ts: Seq<SpecToken>, i: int) -> int
    decreases i,
{
    if i <= 0 {
        0
    } else {
        seps_before(ts, i - 1) + if sep_after(ts, i - 1) {
            1int
        } else {
            0int
        }
    }
}

/// Where the rewrite of input token `i` stands in the output: shifted right
/// by one slot for every separator synthesized earlier.
pub open spec fn out_pos(ts: Seq<SpecToken>, i: int) -> int {
    i + seps_before(ts, i)
}

/// The separator count grows monotonically, by at most one per position.
pub proof fn lemma_seps_before_bounds(ts: Seq<SpecToken>, i: int, j: int)
    requires
        0 <= i <= j,
    ensures
        seps_before(ts, i) <= seps_before(ts, j) <= seps_before(ts, i) + (j - i),
    decreases j - i,
{
    if i < j {
        lemma_seps_before_bounds(ts, i, j - 1);
    }
}

/// Every slot of the output from position `i` on is accounted for: it is
/// either the rewrite of some input token standing at that token's place, or
/// the separator synthesized after some boundary pair.
pub open spec fn slot_accounted(ts: Seq<SpecToken>, i: int, k: int) -> bool {
    ||| (exists|j: int|
        i <= j < ts.len() && k == (j - i) + #[trigger] seps_before(ts, j) - seps_before(ts, i)
            && rewrite_from(ts, i)[k] == rewrite_token(ts[j]))
    ||| (exists|j: int|
        i <= j < ts.len() && sep_after(ts, j) && k == (j - i) + #[trigger] seps_before(ts, j)
            - seps_before(ts, i) + 1 && rewrite_from(ts, i)[k] == separator())
}

proof fn lemma_rewrite_from_structure(ts: Seq<SpecToken>, i: int)
    requires
        0 <= i <= ts.len(),
    ensures
        rewrite_from(ts, i).len() == (ts.len() - i) + seps_before(ts, ts.len() as int)
            - seps_before(ts, i),
        forall|j: int|
            i <= j < ts.len() ==> rewrite_from(ts, i)[(j - i) + #[trigger] seps_before(ts, j)
                - seps_before(ts, i)] == rewrite_token(ts[j]),
        forall|j: int|
            i <= j < ts.len() && sep_after(ts, j) ==> rewrite_from(ts, i)[(j - i)
                + #[trigger] seps_before(ts, j) - seps_before(ts, i) + 1] == separator(),
        forall|k: int| 0 <= k < rewrite_from(ts, i).len() ==> #[trigger] slot_accounted(ts, i, k),
    decreases ts.len() - i,
{
    if i == ts.len() {
        lemma_seps_before_bounds(ts, i, i);
    } else {
        lemma_rewrite_from_structure(ts, i + 1);
        let clen: int = if sep_after(ts, i) {
            2
        } else {
            1
        };
        let rest = rewrite_from(ts, i + 1);
        assert(seps_before(ts, i + 1) == seps_before(ts, i) + (clen - 1));
        assert(rewrite_from(ts, i).len() == clen + rest.len());
        assert forall|j: int|
            i <= j < ts.len() implies rewrite_from(ts, i)[(j - i) + #[trigger] seps_before(ts, j)
            - seps_before(ts, i)] == rewrite_token(ts[j]) by {
            if j == i {
                assert(rewrite_from(ts, i)[0] == rewrite_token(ts[i]));
            } else {
                lemma_seps_before_bounds(ts, i + 1, j);
                lemma_seps_before_bounds(ts, j, ts.len() as int);
                let k2 = (j - (i + 1)) + seps_before(ts, j) - seps_before(ts, i + 1);
                assert(0 <= k2 < rest.len());
                assert(rest[k2] == rewrite_token(ts[j]));
                assert(rewrite_from(ts, i)[k2 + clen] == rest[k2]);
            }
        }
        assert forall|j: int|
            i <= j < ts.len() && sep_after(ts, j) implies rewrite_from(ts, i)[(j - i)
            + #[trigger] seps_before(ts, j) - seps_before(ts, i) + 1] == separator() by {
            if j == i {
                assert(rewrite_from(ts, i)[1] == separator());
            } else {
                lemma_seps_before_bounds(ts, i + 1, j);
                assert(seps_before(ts, j + 1) == seps_before(ts, j) + 1);
                lemma_seps_before_bounds(ts, j + 1, ts.len() as int);
                let k2 = (j - (i + 1)) + seps_before(ts, j) - seps_before(ts, i + 1) + 1;
                assert(0 <= k2 < rest.len());
                assert(rest[k2] == separator());
                assert(rewrite_from(ts, i)[k2 + clen] == rest[k2]);
            }
        }
        assert forall|k: int|
            0 <= k < rewrite_from(ts, i).len() implies #[trigger] slot_accounted(ts, i, k) by {
            if k == 0 {
                assert(rewrite_from(ts, i)[0] == rewrite_token(ts[i]));
                assert(k == (i - i) + seps_before(ts, i) - seps_before(ts, i)
                    && rewrite_from(ts, i)[k] == rewrite_token(ts[i]));
            } else if k == 1 && sep_after(ts, i) {
                assert(rewrite_from(ts, i)[1] == separator());
                assert(k == (i - i) + seps_before(ts, i) - seps_before(ts, i) + 1
                    && rewrite_from(ts, i)[k] == separator());
            } else {
                let k2 = k - clen;
                assert(0 <= k2 < rest.len());
                assert(slot_accounted(ts, i + 1, k2));
                assert(rewrite_from(ts, i)[k2 + clen] == rest[k2]);
                if exists|j: int|
                    i + 1 <= j < ts.len() && k2 == (j - (i + 1)) + #[trigger] seps_before(ts, j)
                        - seps_before(ts, i + 1) && rewrite_from(ts, i + 1)[k2] == rewrite_token(
                        ts[j],
                    ) {
                    let j = choose|j: int|
                        i + 1 <= j < ts.len() && k2 == (j - (i + 1)) + #[trigger] seps_before(
                            ts,
                            j,
                        ) - seps_before(ts, i + 1) && rewrite_from(ts, i + 1)[k2] == rewrite_token(
                            ts[j],
                        );
                    assert(k == (j - i) + seps_before(ts, j) - seps_before(ts, i)
                        && rewrite_from(ts, i)[k] == rewrite_token(ts[j]));
                } else {
                    let j = choose|j: int|
                        i + 1 <= j < ts.len() && sep_after(ts, j) && k2 == (j - (i + 1))
                            + #[trigger] seps_before(ts, j) - seps_before(ts, i + 1) + 1
                            && rewrite_from(ts, i + 1)[k2] == separator();
                    assert(k == (j - i) + seps_before(ts, j) - seps_before(ts, i) + 1
                        && rewrite_from(ts, i)[k] == separator());
                }
            }
        }
    }
}

/// Law: the output is the ordered rewrites of the input tokens with the
/// synthesized separators spliced in, and holds nothing else.
///
/// - the output length is the input length plus the number of boundary
///   pairs;
/// - the rewrite of input token `i` stands at `out_pos(ts, i)`;
/// - a separator stands right after the rewrite of token `i` exactly for the
///   boundary pairs;
/// - every output slot is one of the two.
pub proof fn lemma_rewrite_structure(ts: Seq<SpecToken>)
    ensures
        rewrite_seq(ts).len() == ts.len() + seps_before(ts, ts.len() as int),
        forall|i: int|
            0 <= i < ts.len() ==> rewrite_seq(ts)[#[trigger] out_pos(ts, i)] == rewrite_token(
                ts[i],
            ),
        forall|i: int|
            sep_after(ts, i) ==> rewrite_seq(ts)[#[trigger] out_pos(ts, i) + 1] == separator(),
        forall|i: int| 0 <= i < ts.len() ==> i <= #[trigger] out_pos(ts, i) < rewrite_seq(ts).len(),
        forall|k: int| 0 <= k < rewrite_seq(ts).len() ==> #[trigger] slot_accounted(ts, 0, k),
{
    lemma_rewrite_from_structure(ts, 0);
    assert forall|i: int|
        0 <= i < ts.len() implies i <= #[trigger] out_pos(ts, i) < rewrite_seq(ts).len() by {
        lemma_seps_before_bounds(ts, 0, i);
        lemma_seps_before_bounds(ts, i, ts.len() as int);
    }
}

/// Law: separators are local.  Between the rewrites of adjacent input tokens
/// `i` and `i + 1` there is exactly one slot when the boundary predicate
/// holds of the original pair — filled by the separator — and no slot at all
/// when it does not.  In particular no separator ever stands next to another
/// synthesized separator of the same pass.
pub proof fn lemma_separator_locality(ts: Seq<SpecToken>, i: int)
    requires
        0 <= i,
        i + 1 < ts.len(),
    ensures
        spec_needs_separator(ts[i], ts[i + 1]) ==> out_pos(ts, i + 1) == out_pos(ts, i) + 2
            && rewrite_seq(ts)[out_pos(ts, i) + 1] == separator(),
        !spec_needs_separator(ts[i], ts[i + 1]) ==> out_pos(ts, i + 1) == out_pos(ts, i) + 1,
        rewrite_seq(ts)[out_pos(ts, i)] == rewrite_token(ts[i]),
        rewrite_seq(ts)[out_pos(ts, i + 1)] == rewrite_token(ts[i + 1]),
{
    lemma_rewrite_structure(ts);
    assert(seps_before(ts, i + 1) == seps_before(ts, i) + if sep_after(ts, i) {
        1int
    } else {
        0int
    });
}

/// Law: the rewrite never puts a separator after the last token — the
/// rewrite of the final input token is the final output token.
pub proof fn lemma_no_trailing_separator(ts: Seq<SpecToken>)
    requires
        ts.len() > 0,
    ensures
        rewrite_seq(ts).len() == out_pos(ts, ts.len() - 1) + 1,
        rewrite_seq(ts)[rewrite_seq(ts).len() - 1] == rewrite_token(ts[ts.len() - 1]),
{
    lemma_rewrite_structure(ts);
    assert(seps_before(ts, ts.len() as int) == seps_before(ts, ts.len() - 1) + if sep_after(
        ts,
        ts.len() - 1,
    ) {
        1int
    } else {
        0int
    });
    assert(rewrite_seq(ts)[out_pos(ts, ts.len() - 1)] == rewrite_token(ts[ts.len() - 1]));
}

/// Law: substitution is idempotent and surgical.  At its place in the
/// output, an identifier whose text is the surface alias appears as the host
/// binding keyword with its original position; every other identifier,
/// literal and punctuation token appears unchanged; a group keeps its
/// delimiter and position around its recursively rewritten contents.
/// Instantiated on a group's inner sequence, the same law governs every
/// nesting level.
pub proof fn lemma_idempotent_substitution(ts: Seq<SpecToken>, i: int)
    requires
        0 <= i < ts.len(),
    ensures
        ts[i] matches SpecToken::Ident { text, pos } ==> rewrite_seq(ts)[out_pos(ts, i)] == (
        if text == tb_text() {
            SpecToken::Ident { text: let_text(), pos }
        } else {
            ts[i]
        }),
        ts[i] is Literal ==> rewrite_seq(ts)[out_pos(ts, i)] == ts[i],
        ts[i] is Punct ==> rewrite_seq(ts)[out_pos(ts, i)] == ts[i],
        ts[i] matches SpecToken::Group { delim, inner, pos } ==> rewrite_seq(ts)[out_pos(ts, i)]
            == (SpecToken::Group { delim, inner: rewrite_seq(inner), pos }),
{
    lemma_rewrite_structure(ts);
}

/// The bracket skeleton of a token: nothing for an atom, and for a group its
/// delimiter over the skeletons of its contents.
pub ghost struct GroupShape {
    pub delim: Delim,
    pub children: Seq<GroupShape>,
}

/// The skeletons of the groups among one token.
pub open spec fn token_shapes(t: SpecToken) -> Seq<GroupShape>
    decreases t, 0int,
{
    match t {
        SpecToken::Group { delim, inner, .. } => seq![
            GroupShape { delim, children: shapes_from(inner, 0) },
        ],
        _ => Seq::empty(),
    }
}

/// The skeletons of the groups among `ts[i..]`, in order.
pub open spec fn shapes_from(ts: Seq<SpecToken>, i: int) -> Seq<GroupShape>
    decreases ts, ts.len() - i + 1,
{
    if i < 0 || i >= ts.len() {
        Seq::empty()
    } else {
        token_shapes(ts[i]) + shapes_from(ts, i + 1)
    }
}

/// The bracket skeleton of a token sequence.
pub open spec fn shapes(ts: Seq<SpecToken>) -> Seq<GroupShape> {
    shapes_from(ts, 0)
}

proof fn lemma_shapes_from_shift(a: Seq<SpecToken>, b: Seq<SpecToken>, j: int)
    requires
        0 <= j <= b.len(),
    ensures
        shapes_from(a + b, a.len() + j) == shapes_from(b, j),
    decreases b.len() - j,
{
    if j < b.len() {
        lemma_shapes_from_shift(a, b, j + 1);
        assert((a + b)[a.len() + j] == b[j]);
    } else {
        assert(shapes_from(a + b, a.len() + j) =~= shapes_from(b, j));
    }
}

proof fn lemma_shapes_concat(a: Seq<SpecToken>, b: Seq<SpecToken>, i: int)
    requires
        0 <= i <= a.len(),
    ensures
        shapes_from(a + b, i) == shapes_from(a, i) + shapes_from(b, 0),
    decreases a.len() - i,
{
    if i == a.len() {
        lemma_shapes_from_shift(a, b, 0);
        assert(shapes_from(a, i) + shapes_from(b, 0) =~= shapes_from(b, 0));
    } else {
        lemma_shapes_concat(a, b, i + 1);
        assert((a + b)[i] == a[i]);
        assert(token_shapes(a[i]) + (shapes_from(a, i + 1) + shapes_from(b, 0)) =~= (token_shapes(
            a[i],
        ) + shapes_from(a, i + 1)) + shapes_from(b, 0));
    }
}

proof fn lemma_token_shapes_rewrite(t: SpecToken)
    ensures
        token_shapes(rewrite_token(t)) == token_shapes(t),
    decreases t, 0int,
{
    match t {
        SpecToken::Group { delim, inner, pos } => {
            lemma_shapes_rewrite_from(inner, 0);
        },
        _ => {},
    }
}

proof fn lemma_shapes_rewrite_from(ts: Seq<SpecToken>, i: int)
    requires
        0 <= i <= ts.len(),
    ensures
        shapes(rewrite_from(ts, i)) == shapes_from(ts, i),
    decreases ts, ts.len() - i + 1,
{
    if i < ts.len() {
        lemma_token_shapes_rewrite(ts[i]);
        lemma_shapes_rewrite_from(ts, i + 1);
        let rest = rewrite_from(ts, i + 1);
        if sep_after(ts, i) {
            let chunk = seq![rewrite_token(ts[i]), separator()];
            lemma_shapes_concat(chunk, rest, 0);
            assert(chunk[0] == rewrite_token(ts[i]) && chunk[1] == separator());
            assert(shapes_from(chunk, 2) =~= Seq::<GroupShape>::empty());
            assert(token_shapes(separator()) + Seq::<GroupShape>::empty() =~= Seq::<
                GroupShape,
            >::empty());
            assert(shapes_from(chunk, 1) =~= Seq::<GroupShape>::empty());
            assert(shapes_from(chunk, 0) =~= token_shapes(ts[i]));
            assert(token_shapes(ts[i]) + shapes_from(ts, i + 1) =~= shapes_from(ts, i));
        } else {
            let chunk = seq![rewrite_token(ts[i])];
            lemma_shapes_concat(chunk, rest, 0);
            assert(chunk[0] == rewrite_token(ts[i]));
            assert(shapes_from(chunk, 1) =~= Seq::<GroupShape>::empty());
            assert(shapes_from(chunk, 0) =~= token_shapes(ts[i]));
            assert(token_shapes(ts[i]) + shapes_from(ts, i + 1) =~= shapes_from(ts, i));
        }
    } else {
        assert(shapes(rewrite_from(ts, i)) =~= shapes_from(ts, i));
    }
}

/// Law: the rewrite is a structural isomorphism on brackets.  The groups of
/// the output — their count, their delimiters and their whole nesting
/// skeleton — mirror the input's exactly; separators are only ever inserted
/// inside a group's own top-level sequence and never change the skeleton.
pub proof fn lemma_structural_isomorphism(ts: Seq<SpecToken>)
    ensures
        shapes(rewrite_seq(ts)) == shapes(ts),
{
    lemma_shapes_rewrite_from(ts, 0);
}

} // verus!
