//! Translation of prefix-notation text to infix notation.
//!
//! The translator scans the tokens forward with a stack of pending
//! operators.  Parentheses are emitted as they come; operators are pushed,
//! never emitted on sight; an operand is emitted at once, and the most
//! recently pending operator follows it — unless the next token closes a
//! group, in which case the operator waits until the group is closed.

use vstd::prelude::*;
use crate::lexer::is_arith_op;
use crate::lexer::is_close;
use crate::lexer::is_op_tok;
use crate::lexer::is_open;
use crate::lexer::tok_is;
use crate::lexer::tok_is_arith_op;
use crate::lexer::tokenize;
use crate::lexer::tokens_of;

verus! {

/// The forward scan over the token sequence `toks` from position `i`, with
/// pending-operator stack `ops` and the text emitted so far `acc`: the
/// complete emitted text.
pub open spec fn p2i_step(toks: Seq<Seq<char>>, i: int, ops: Seq<Seq<char>>, acc: Seq<char>) -> Seq<
    char,
>
    decreases toks.len() - i,
{
    if i < 0 || i >= toks.len() {
        acc
    } else {
        let t = toks[i];
        if is_open(t) {
            p2i_step(toks, i + 1, ops, acc + t)
        } else if is_close(t) {
            if i + 1 < toks.len() && is_close(toks[i + 1]) {
                p2i_step(toks, i + 1, ops, acc + t)
            } else if ops.len() > 0 {
                p2i_step(toks, i + 1, ops.drop_last(), acc + t + seq![' '] + ops.last() + seq![' '])
            } else {
                p2i_step(toks, i + 1, ops, acc + t)
            }
        } else if is_op_tok(t) {
            p2i_step(toks, i + 1, ops.push(t), acc)
        } else {
            if ops.len() == 0 {
                p2i_step(toks, i + 1, ops, acc + t)
            } else if i + 1 < toks.len() && is_close(toks[i + 1]) {
                p2i_step(toks, i + 1, ops, acc + t)
            } else {
                p2i_step(toks, i + 1, ops.drop_last(), acc + t + seq![' '] + ops.last() + seq![' '])
            }
        }
    }
}

/// The infix-notation text equivalent to the prefix-notation text `s`.
pub open spec fn prefix_to_infix_chars(s: Seq<char>) -> Seq<char> {
    p2i_step(tokens_of(s), 0, Seq::empty(), Seq::empty())
}

/// Translate prefix-notation text to infix notation.
///
/// Tokens are scanned forward with a stack of pending operators: `(` and
/// `)` are emitted at once, `=` and the four arithmetic operators are
/// pushed, and any other token is emitted at once, followed by the most
/// recently pushed operator with a space on either side — unless the next
/// token is a `)`, in which case the operator stays pending until its group
/// has been closed.
pub fn translate_prefix(prefix_notation: &str) -> (ret: String)
    ensures
        ret@ == prefix_to_infix_chars(prefix_notation@),
{
    let toks = tokenize(prefix_notation);
    let ghost td = toks.deep_view();
    let n = toks.len();
    let mut ops: Vec<String> = Vec::new();
    let mut ret = String::new();
    proof {
        assert(ops.deep_view() =~= Seq::<Seq<char>>::empty());
        assert(ret@ =~= Seq::<char>::empty());
        reveal_strlit(" ");
        assert(" "@ =~= seq![' ']);
    }
    let mut i: usize = 0;
    while i < n
        invariant
            i <= n,
            n == toks@.len(),
            td == toks.deep_view(),
            " "@ == seq![' '],
            p2i_step(td, i as int, ops.deep_view(), ret@) == p2i_step(
                td,
                0,
                Seq::empty(),
                Seq::empty(),
            ),
        decreases n - i,
    {
        let ghost op0 = ops.deep_view();
        let ghost ac0 = ret@;
        let t = &toks[i];
        proof {
            assert(td[i as int] == t@);
        }
        if tok_is(t.as_str(), '(') {
            ret.append(t.as_str());
        } else if tok_is(t.as_str(), ')') {
            ret.append(t.as_str());
            let next_close = i + 1 < n && tok_is(toks[i + 1].as_str(), ')');
            if !next_close && ops.len() > 0 {
                let top = ops.pop().unwrap();
                proof {
                    assert(ops.deep_view() =~= op0.drop_last());
                    assert(top@ == op0.last());
                }
                ret.append(" ");
                ret.append(top.as_str());
                ret.append(" ");
            }
        } else if tok_is(t.as_str(), '=') || tok_is_arith_op(t.as_str()) {
            ops.push(t.clone());
            proof {
                assert(ops.deep_view() =~= op0.push(td[i as int]));
            }
        } else {
            ret.append(t.as_str());
            let next_close = i + 1 < n && tok_is(toks[i + 1].as_str(), ')');
            if ops.len() > 0 && !next_close {
                let top = ops.pop().unwrap();
                proof {
                    assert(ops.deep_view() =~= op0.drop_last());
                    assert(top@ == op0.last());
                }
                ret.append(" ");
                ret.append(top.as_str());
                ret.append(" ");
            }
        }
        proof {
            assert(p2i_step(td, i as int, op0, ac0) == p2i_step(
                td,
                i + 1,
                ops.deep_view(),
                ret@,
            ));
        }
        i = i + 1;
    }
    ret
}

} // verus!
