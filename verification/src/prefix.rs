//! Translation of infix-notation text to prefix notation.
//!
//! The translator scans the token sequence in reverse, keeping an operator
//! stack and emitting tokens as it goes; because of the reversed scan the
//! roles of the parentheses are swapped (`)` opens a scope, `(` drains one).
//! A `+` or `-` standing between another operator and an operand is a sign,
//! not a binary operator: it is fused onto the operand.  The emitted tokens
//! are reversed once at the end and joined with single spaces.

use vstd::prelude::*;
use crate::lexer::is_arith_op;
use crate::lexer::is_char_tok;
use crate::lexer::is_close;
use crate::lexer::is_op_tok;
use crate::lexer::is_open;
use crate::lexer::join_spaces;
use crate::lexer::join_tokens;
use crate::lexer::tok_is;
use crate::lexer::tok_is_arith_op;
use crate::lexer::tokenize;
use crate::lexer::tokens_of;

verus! {

/// Precedence of an operator token: `=` binds tightest, then `*` and `/`,
/// then `+` and `-`; anything else has precedence 0.
pub open spec fn spec_precedence(op: Seq<char>) -> int {
    if is_char_tok(op, '=') {
        3
    } else if is_char_tok(op, '*') || is_char_tok(op, '/') {
        2
    } else if is_char_tok(op, '+') || is_char_tok(op, '-') {
        1
    } else {
        0
    }
}

pub fn get_precedence(op: &str) -> (r: i32)
    ensures
        r as int == spec_precedence(op@),
{
    if tok_is(op, '=') {
        3
    } else if tok_is(op, '*') || tok_is(op, '/') {
        2
    } else if tok_is(op, '+') || tok_is(op, '-') {
        1
    } else {
        0
    }
}

/// Looking at position `i` of the reversed token sequence `r`: the token at
/// `i + 1`, provided the token at `i + 2` is an operator.  A `Some` result
/// that is itself a `+` or `-` marks a sign to be fused onto the operand at
/// `i`.
pub open spec fn signed_at(r: Seq<Seq<char>>, i: int) -> Option<Seq<char>> {
    if i + 2 < r.len() && is_op_tok(r[i + 2]) {
        Some(r[i + 1])
    } else {
        None
    }
}

/// Whether the operand at position `i` of the reversed token sequence gets
/// a sign fused onto it.
pub open spec fn fuse_at(r: Seq<Seq<char>>, i: int) -> bool {
    match signed_at(r, i) {
        Some(s) => is_char_tok(s, '+') || is_char_tok(s, '-'),
        None => false,
    }
}

/// Pop operators off `stack` onto `out` until a `)` marker is popped and
/// discarded, or the stack runs empty.
pub open spec fn drain_to_close(stack: Seq<Seq<char>>, out: Seq<Seq<char>>) -> (Seq<Seq<char>>, Seq<
    Seq<char>,
>)
    decreases stack.len(),
{
    if stack.len() == 0 {
        (stack, out)
    } else if is_close(stack.last()) {
        (stack.drop_last(), out)
    } else {
        drain_to_close(stack.drop_last(), out.push(stack.last()))
    }
}

/// One pass of the reversed-scan translator over the reversed token
/// sequence `r`, starting at position `i` with operator stack `stack`,
/// emitted tokens `out` (in emission order) and the sign-fusion skip flag:
/// the complete emission sequence, with the remaining stack drained at the
/// end.
pub open spec fn i2p_step(
    r: Seq<Seq<char>>,
    i: int,
    stack: Seq<Seq<char>>,
    out: Seq<Seq<char>>,
    skip: bool,
) -> Seq<Seq<char>>
    decreases r.len() - i,
{
    if i < 0 || i >= r.len() {
        out + stack.reverse()
    } else if skip {
        i2p_step(r, i + 1, stack, out, false)
    } else {
        let t = r[i];
        if is_close(t) {
            i2p_step(r, i + 1, stack.push(t), out.push(t), false)
        } else if is_op_tok(t) {
            if stack.len() == 0 {
                i2p_step(r, i + 1, stack.push(t), out, false)
            } else if spec_precedence(stack.last()) >= spec_precedence(t) {
                i2p_step(r, i + 1, stack.drop_last().push(t), out.push(stack.last()), false)
            } else {
                i2p_step(r, i + 1, stack.push(t), out, false)
            }
        } else if is_open(t) {
            if stack.len() == 0 {
                i2p_step(r, i + 1, stack, out.push(t), false)
            } else {
                let so = drain_to_close(stack, out);
                i2p_step(r, i + 1, so.0, so.1.push(t), false)
            }
        } else {
            if fuse_at(r, i) {
                i2p_step(r, i + 1, stack, out.push(r[i + 1] + t), true)
            } else {
                i2p_step(r, i + 1, stack, out.push(t), false)
            }
        }
    }
}

/// The prefix-order token sequence equivalent to the infix-order token
/// sequence `toks`: the reversed-scan emission sequence, reversed.
pub open spec fn infix_to_prefix_toks(toks: Seq<Seq<char>>) -> Seq<Seq<char>> {
    i2p_step(toks.reverse(), 0, Seq::empty(), Seq::empty(), false).reverse()
}

/// The prefix-notation text equivalent to the infix-notation text `s`.
pub open spec fn infix_to_prefix_chars(s: Seq<char>) -> Seq<char> {
    join_spaces(infix_to_prefix_toks(tokens_of(s)))
}

/// Looking at position `position` of the reversed token sequence: the token
/// one further on, provided the token two further on is an operator.  The
/// caller fuses the returned token onto the current operand when it is a
/// `+` or `-` sign.
pub fn check_signed(tokens: &Vec<String>, position: usize) -> (r: Option<String>)
    ensures
        match r {
            Some(s) => signed_at(tokens.deep_view(), position as int) matches Some(t) && t == s@,
            None => signed_at(tokens.deep_view(), position as int) is None,
        },
{
    if tokens.len() >= 3 && position <= tokens.len() - 3 {
        let second = &tokens[position + 2];
        if tok_is(second.as_str(), '=') || tok_is_arith_op(second.as_str()) {
            Some(tokens[position + 1].clone())
        } else {
            None
        }
    } else {
        None
    }
}

/// Translate infix-notation text to prefix notation.
///
/// The tokens are scanned in reverse with an operator stack: a `)` is both
/// emitted and pushed as a scope marker, an operator pops one
/// higher-or-equal-precedence operator to the output before being pushed, a
/// `(` drains the stack to the output up to its `)` marker and is then
/// emitted, and an operand is emitted directly, fused with a preceding sign
/// when one is flagged.  The emission order is reversed at the end and the
/// tokens are joined with single spaces.
pub fn translate_infix(infix_notation: &str) -> (ret: String)
    ensures
        ret@ == infix_to_prefix_chars(infix_notation@),
{
    let toks = tokenize(infix_notation);
    let n = toks.len();

    let mut rev: Vec<String> = Vec::new();
    let mut j: usize = 0;
    while j < n
        invariant
            j <= n,
            n == toks@.len(),
            rev@.len() == j,
            forall|k: int| 0 <= k < j ==> rev.deep_view()[k] == toks.deep_view()[n - 1 - k],
        decreases n - j,
    {
        let ghost prev = rev.deep_view();
        rev.push(toks[n - 1 - j].clone());
        proof {
            assert(rev.deep_view() =~= prev.push(toks.deep_view()[n - 1 - j]));
        }
        j = j + 1;
    }
    proof {
        assert(rev.deep_view() =~= toks.deep_view().reverse());
    }

    let ghost rd = rev.deep_view();
    let mut stack: Vec<String> = Vec::new();
    let mut out: Vec<String> = Vec::new();
    proof {
        assert(stack.deep_view() =~= Seq::<Seq<char>>::empty());
        assert(out.deep_view() =~= Seq::<Seq<char>>::empty());
    }
    let mut skip = false;
    let mut i: usize = 0;
    while i < n
        invariant
            i <= n,
            n == rev@.len(),
            rd == rev.deep_view(),
            i2p_step(rd, i as int, stack.deep_view(), out.deep_view(), skip) == i2p_step(
                rd,
                0,
                Seq::empty(),
                Seq::empty(),
                false,
            ),
        decreases n - i,
    {
        let ghost st0 = stack.deep_view();
        let ghost ou0 = out.deep_view();
        let ghost sk0 = skip;
        if skip {
            skip = false;
        } else {
            let t = &rev[i];
            proof {
                assert(rd[i as int] == t@);
            }
            if tok_is(t.as_str(), ')') {
                let c = t.clone();
                stack.push(c.clone());
                out.push(c);
                proof {
                    assert(stack.deep_view() =~= st0.push(rd[i as int]));
                    assert(out.deep_view() =~= ou0.push(rd[i as int]));
                }
            } else if tok_is(t.as_str(), '=') || tok_is_arith_op(t.as_str()) {
                if stack.len() == 0 {
                    stack.push(t.clone());
                    proof {
                        assert(stack.deep_view() =~= st0.push(rd[i as int]));
                    }
                } else {
                    let stack_top = stack.pop().unwrap();
                    proof {
                        assert(stack.deep_view() =~= st0.drop_last());
                        assert(stack_top@ == st0.last());
                    }
                    if get_precedence(stack_top.as_str()) >= get_precedence(t.as_str()) {
                        out.push(stack_top);
                        stack.push(t.clone());
                        proof {
                            assert(out.deep_view() =~= ou0.push(st0.last()));
                            assert(stack.deep_view() =~= st0.drop_last().push(rd[i as int]));
                        }
                    } else {
                        stack.push(stack_top);
                        stack.push(t.clone());
                        proof {
                            assert(stack.deep_view() =~= st0.push(rd[i as int]));
                        }
                    }
                }
            } else if tok_is(t.as_str(), '(') {
                if stack.len() == 0 {
                    out.push(t.clone());
                    proof {
                        assert(out.deep_view() =~= ou0.push(rd[i as int]));
                    }
                } else {
                    let ghost s0 = stack.deep_view();
                    let ghost o0 = out.deep_view();
                    let mut check = true;
                    while check
                        invariant
                            check ==> drain_to_close(s0, o0) == drain_to_close(
                                stack.deep_view(),
                                out.deep_view(),
                            ),
                            !check ==> (stack.deep_view(), out.deep_view()) == drain_to_close(
                                s0,
                                o0,
                            ),
                        decreases stack@.len() + (if check {
                            1int
                        } else {
                            0int
                        }),
                    {
                        if stack.len() == 0 {
                            proof {
                                assert(drain_to_close(stack.deep_view(), out.deep_view()) == (
                                    stack.deep_view(),
                                    out.deep_view(),
                                ));
                            }
                            check = false;
                        } else {
                            let ghost s1 = stack.deep_view();
                            let ghost o1 = out.deep_view();
                            let stack_top = stack.pop().unwrap();
                            proof {
                                assert(stack.deep_view() =~= s1.drop_last());
                                assert(stack_top@ == s1.last());
                            }
                            if tok_is(stack_top.as_str(), ')') {
                                proof {
                                    assert(drain_to_close(s1, o1) == (s1.drop_last(), o1));
                                }
                                check = false;
                            } else {
                                out.push(stack_top);
                                proof {
                                    assert(out.deep_view() =~= o1.push(s1.last()));
                                    assert(drain_to_close(s1, o1) == drain_to_close(
                                        s1.drop_last(),
                                        o1.push(s1.last()),
                                    ));
                                }
                            }
                        }
                    }
                    out.push(t.clone());
                    proof {
                        assert(out.deep_view() =~= drain_to_close(st0, ou0).1.push(rd[i as int]));
                    }
                }
            } else {
                let signed = check_signed(&rev, i);
                let mut fused = false;
                match signed {
                    Some(s) => {
                        if tok_is(s.as_str(), '+') || tok_is(s.as_str(), '-') {
                            out.push(s.concat(t.as_str()));
                            skip = true;
                            fused = true;
                            proof {
                                assert(fuse_at(rd, i as int));
                                assert(out.deep_view() =~= ou0.push(rd[i + 1] + rd[i as int]));
                            }
                        }
                    },
                    None => {},
                }
                if !fused {
                    proof {
                        assert(!fuse_at(rd, i as int));
                    }
                    out.push(t.clone());
                    proof {
                        assert(out.deep_view() =~= ou0.push(rd[i as int]));
                    }
                }
            }
        }
        proof {
            assert(i2p_step(rd, i as int, st0, ou0, sk0) == i2p_step(
                rd,
                i + 1,
                stack.deep_view(),
                out.deep_view(),
                skip,
            ));
        }
        i = i + 1;
    }

    let ghost target = i2p_step(rd, 0, Seq::empty(), Seq::empty(), false);
    proof {
        assert(i2p_step(rd, n as int, stack.deep_view(), out.deep_view(), skip) == out.deep_view()
            + stack.deep_view().reverse());
    }
    while stack.len() > 0
        invariant
            out.deep_view() + stack.deep_view().reverse() == target,
        decreases stack@.len(),
    {
        let ghost s1 = stack.deep_view();
        let ghost o1 = out.deep_view();
        let top = stack.pop().unwrap();
        out.push(top);
        proof {
            assert(stack.deep_view() =~= s1.drop_last());
            assert(out.deep_view() =~= o1.push(s1.last()));
            assert(o1.push(s1.last()) + s1.drop_last().reverse() =~= o1 + s1.reverse());
        }
    }
    proof {
        assert(out.deep_view() =~= target);
    }

    let m = out.len();
    let mut fin: Vec<String> = Vec::new();
    let mut j2: usize = 0;
    while j2 < m
        invariant
            j2 <= m,
            m == out@.len(),
            fin@.len() == j2,
            forall|k: int| 0 <= k < j2 ==> fin.deep_view()[k] == out.deep_view()[m - 1 - k],
        decreases m - j2,
    {
        let ghost prev = fin.deep_view();
        fin.push(out[m - 1 - j2].clone());
        proof {
            assert(fin.deep_view() =~= prev.push(out.deep_view()[m - 1 - j2]));
        }
        j2 = j2 + 1;
    }
    proof {
        assert(fin.deep_view() =~= out.deep_view().reverse());
        assert(fin.deep_view() =~= infix_to_prefix_toks(tokens_of(infix_notation@)));
    }
    join_tokens(&fin)
}

} // verus!
