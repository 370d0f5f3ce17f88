//! Laws relating the translators, the parser and the formatter.

use vstd::prelude::*;
use crate::calculator::apply_op;
use crate::calculator::classify_toks;
use crate::calculator::classify_upto;
use crate::calculator::eval_outcome;
use crate::calculator::eval_step;
use crate::calculator::insufficient_msg;
use crate::calculator::parse_outcome;
use crate::calculator::undefined_var_msg;
use crate::calculator::render_cell;
use crate::calculator::render_cells;
use crate::calculator::rendered_upto;
use crate::calculator::trunc8;
use crate::calculator::CellKind;
use crate::infix::p2i_step;
use crate::lexer::is_arith_op;
use crate::lexer::is_assign_tok;
use crate::lexer::is_char_tok;
use crate::lexer::is_close;
use crate::lexer::is_op_tok;
use crate::lexer::is_open;
use crate::lexer::join_spaces;
use crate::lexer::tokens_of;
use crate::numeric::parsed_bits;
use crate::prefix::fuse_at;
use crate::prefix::i2p_step;
use crate::prefix::infix_to_prefix_toks;

verus! {

/// A token that is an operand: not an operator, not `=`, and not a
/// parenthesis.
pub open spec fn is_operand_tok(t: Seq<char>) -> bool {
    !is_op_tok(t) && !is_open(t) && !is_close(t)
}

/// Round trip of a single binary operation: translating the infix tokens
/// `x op y` to prefix yields the tokens `op x y`, and translating those
/// back to infix reproduces the original text `x op y` exactly.
pub proof fn lemma_round_trip_single_op(x: Seq<char>, op: Seq<char>, y: Seq<char>)
    requires
        is_arith_op(op),
        is_operand_tok(x),
        is_operand_tok(y),
    ensures
        infix_to_prefix_toks(seq![x, op, y]) == seq![op, x, y],
        p2i_step(seq![op, x, y], 0, Seq::empty(), Seq::empty()) == join_spaces(seq![x, op, y]),
{
    let r = seq![x, op, y].reverse();
    assert(r =~= seq![y, op, x]);

    // The reversed scan: emit `y`, push `op`, emit `x`, drain `op`.
    assert(i2p_step(r, 0, Seq::empty(), Seq::empty(), false) == i2p_step(
        r,
        1,
        Seq::empty(),
        Seq::empty().push(y),
        false,
    ));
    assert(i2p_step(r, 1, Seq::empty(), Seq::empty().push(y), false) == i2p_step(
        r,
        2,
        Seq::empty().push(op),
        Seq::empty().push(y),
        false,
    ));
    assert(i2p_step(r, 2, Seq::empty().push(op), Seq::empty().push(y), false) == i2p_step(
        r,
        3,
        Seq::empty().push(op),
        Seq::empty().push(y).push(x),
        false,
    ));
    assert(i2p_step(r, 3, Seq::empty().push(op), Seq::empty().push(y).push(x), false)
        == Seq::empty().push(y).push(x) + Seq::empty().push(op).reverse());
    assert(Seq::empty().push(y).push(x) + Seq::empty().push(op).reverse() =~= seq![y, x, op]);
    assert(seq![y, x, op].reverse() =~= seq![op, x, y]);

    // The forward scan back: push `op`, emit `x` then `op`, emit `y`.
    let p = seq![op, x, y];
    assert(p2i_step(p, 0, Seq::empty(), Seq::empty()) == p2i_step(
        p,
        1,
        Seq::empty().push(op),
        Seq::empty(),
    ));
    assert(Seq::empty().push(op).drop_last() =~= Seq::<Seq<char>>::empty());
    assert(p2i_step(p, 1, Seq::empty().push(op), Seq::empty()) == p2i_step(
        p,
        2,
        Seq::empty(),
        Seq::<char>::empty() + x + seq![' '] + op + seq![' '],
    ));
    assert(p2i_step(p, 3, Seq::empty(), Seq::<char>::empty() + x + seq![' '] + op + seq![' '] + y)
        == Seq::<char>::empty() + x + seq![' '] + op + seq![' '] + y);
    assert(p2i_step(p, 2, Seq::empty(), Seq::<char>::empty() + x + seq![' '] + op + seq![' '])
        == Seq::<char>::empty() + x + seq![' '] + op + seq![' '] + y);

    assert(seq![x, op, y].drop_last() =~= seq![x, op]);
    assert(seq![x, op].drop_last() =~= seq![x]);
    assert(join_spaces(seq![x, op, y]) == join_spaces(seq![x, op]) + seq![' '] + y);
    assert(join_spaces(seq![x, op]) == join_spaces(seq![x]) + seq![' '] + op);
    assert(join_spaces(seq![x]) == x);
    assert(join_spaces(seq![x, op, y]) =~= Seq::<char>::empty() + x + seq![' '] + op + seq![' ']
        + y);
}

/// Nested precedence: translating the infix tokens `a + b * c / d` to
/// prefix yields `+ a * b / c d` — the equal-precedence `*` and `/` chain
/// left to right under the looser `+` — and translating that back to infix
/// reproduces the original text exactly.
pub proof fn lemma_precedence_chain(a: Seq<char>, b: Seq<char>, c: Seq<char>, d: Seq<char>)
    requires
        is_operand_tok(a),
        is_operand_tok(b),
        is_operand_tok(c),
        is_operand_tok(d),
    ensures
        infix_to_prefix_toks(seq![a, seq!['+'], b, seq!['*'], c, seq!['/'], d]) == seq![
            seq!['+'],
            a,
            seq!['*'],
            b,
            seq!['/'],
            c,
            d,
        ],
        p2i_step(seq![seq!['+'], a, seq!['*'], b, seq!['/'], c, d], 0, Seq::empty(), Seq::empty())
            == join_spaces(seq![a, seq!['+'], b, seq!['*'], c, seq!['/'], d]),
{
    let plus = seq!['+'];
    let star = seq!['*'];
    let slash = seq!['/'];
    let toks = seq![a, plus, b, star, c, slash, d];
    let r = toks.reverse();
    assert(r =~= seq![d, slash, c, star, b, plus, a]);

    let e: Seq<Seq<char>> = Seq::empty();
    let o0 = e.push(d);
    assert(i2p_step(r, 0, e, e, false) == i2p_step(r, 1, e, o0, false));
    let s1 = e.push(slash);
    assert(i2p_step(r, 1, e, o0, false) == i2p_step(r, 2, s1, o0, false));
    let o2 = o0.push(c);
    assert(i2p_step(r, 2, s1, o0, false) == i2p_step(r, 3, s1, o2, false));
    // `*` meets `/` of equal precedence: `/` is emitted, `*` replaces it.
    let s3 = s1.drop_last().push(star);
    let o3 = o2.push(slash);
    assert(s1.last() == slash);
    assert(i2p_step(r, 3, s1, o2, false) == i2p_step(r, 4, s3, o3, false));
    let o4 = o3.push(b);
    assert(i2p_step(r, 4, s3, o3, false) == i2p_step(r, 5, s3, o4, false));
    // `+` meets `*` of higher precedence: `*` is emitted, `+` replaces it.
    let s5 = s3.drop_last().push(plus);
    let o5 = o4.push(star);
    assert(s3.last() == star);
    assert(i2p_step(r, 5, s3, o4, false) == i2p_step(r, 6, s5, o5, false));
    let o6 = o5.push(a);
    assert(i2p_step(r, 6, s5, o5, false) == i2p_step(r, 7, s5, o6, false));
    assert(i2p_step(r, 7, s5, o6, false) == o6 + s5.reverse());
    assert(s5 =~= e.push(plus));
    assert(o6 + s5.reverse() =~= seq![d, c, slash, b, star, a, plus]);
    assert(seq![d, c, slash, b, star, a, plus].reverse() =~= seq![plus, a, star, b, slash, c, d]);

    let p = seq![plus, a, star, b, slash, c, d];
    let ce: Seq<char> = Seq::empty();
    assert(i2p_step(r, 0, e, e, false).reverse() == seq![plus, a, star, b, slash, c, d]);

    let a1 = ce + a + seq![' '] + plus + seq![' '];
    assert(e.push(plus).drop_last() =~= e);
    assert(p2i_step(p, 0, e, ce) == p2i_step(p, 1, e.push(plus), ce));
    assert(p2i_step(p, 1, e.push(plus), ce) == p2i_step(p, 2, e, a1));
    assert(p2i_step(p, 2, e, a1) == p2i_step(p, 3, e.push(star), a1));
    let a3 = a1 + b + seq![' '] + star + seq![' '];
    assert(e.push(star).drop_last() =~= e);
    assert(p2i_step(p, 3, e.push(star), a1) == p2i_step(p, 4, e, a3));
    assert(p2i_step(p, 4, e, a3) == p2i_step(p, 5, e.push(slash), a3));
    let a5 = a3 + c + seq![' '] + slash + seq![' '];
    assert(e.push(slash).drop_last() =~= e);
    assert(p2i_step(p, 5, e.push(slash), a3) == p2i_step(p, 6, e, a5));
    let a6 = a5 + d;
    assert(p2i_step(p, 7, e, a6) == a6);
    assert(p2i_step(p, 6, e, a5) == a6);

    assert(seq![a, plus, b, star, c, slash, d].drop_last() =~= seq![a, plus, b, star, c, slash]);
    assert(seq![a, plus, b, star, c, slash].drop_last() =~= seq![a, plus, b, star, c]);
    assert(seq![a, plus, b, star, c].drop_last() =~= seq![a, plus, b, star]);
    assert(seq![a, plus, b, star].drop_last() =~= seq![a, plus, b]);
    assert(seq![a, plus, b].drop_last() =~= seq![a, plus]);
    assert(seq![a, plus].drop_last() =~= seq![a]);
    assert(join_spaces(seq![a]) == a);
    assert(join_spaces(seq![a, plus]) == join_spaces(seq![a]) + seq![' '] + plus);
    assert(join_spaces(seq![a, plus, b]) == join_spaces(seq![a, plus]) + seq![' '] + b);
    assert(join_spaces(seq![a, plus, b, star]) == join_spaces(seq![a, plus, b]) + seq![' ']
        + star);
    assert(join_spaces(seq![a, plus, b, star, c]) == join_spaces(seq![a, plus, b, star])
        + seq![' '] + c);
    assert(join_spaces(seq![a, plus, b, star, c, slash]) == join_spaces(
        seq![a, plus, b, star, c],
    ) + seq![' '] + slash);
    assert(join_spaces(seq![a, plus, b, star, c, slash, d]) == join_spaces(
        seq![a, plus, b, star, c, slash],
    ) + seq![' '] + d);
    assert(a6 =~= join_spaces(seq![a, plus, b, star, c, slash, d]));
}

/// Sign fusion: in the infix tokens `x = s v` with `s` a `+` or `-` sign
/// standing between the operator and the operand, translation to prefix
/// fuses the sign onto the operand, yielding the tokens `= x sv` rather
/// than treating the sign as a binary operator.
pub proof fn lemma_sign_fusion(x: Seq<char>, s: Seq<char>, v: Seq<char>)
    requires
        is_operand_tok(x),
        is_operand_tok(v),
        is_char_tok(s, '+') || is_char_tok(s, '-'),
    ensures
        infix_to_prefix_toks(seq![x, seq!['='], s, v]) == seq![seq!['='], x, s + v],
{
    let eq = seq!['='];
    let toks = seq![x, eq, s, v];
    let r = toks.reverse();
    assert(r =~= seq![v, s, eq, x]);

    let e: Seq<Seq<char>> = Seq::empty();
    assert(is_op_tok(r[2]));
    assert(fuse_at(r, 0));
    let o0 = e.push(s + v);
    assert(i2p_step(r, 0, e, e, false) == i2p_step(r, 1, e, o0, true));
    assert(i2p_step(r, 1, e, o0, true) == i2p_step(r, 2, e, o0, false));
    let s2 = e.push(eq);
    assert(i2p_step(r, 2, e, o0, false) == i2p_step(r, 3, s2, o0, false));
    let o3 = o0.push(x);
    assert(i2p_step(r, 3, s2, o0, false) == i2p_step(r, 4, s2, o3, false));
    assert(i2p_step(r, 4, s2, o3, false) == o3 + s2.reverse());
    assert(o3 + s2.reverse() =~= seq![s + v, x, eq]);
    assert(seq![s + v, x, eq].reverse() =~= seq![eq, x, s + v]);
}

/// One binary operation: evaluating the cells `op a b` with `op` one of the
/// four operators yields exactly the operation's result, whatever the
/// binding table.
pub proof fn lemma_eval_single_op(op: Seq<char>, a: u64, b: u64, env: Map<Seq<char>, u64>)
    requires
        is_arith_op(op),
    ensures
        apply_op(op, a, b) matches Some(v) && eval_outcome(
            seq![CellKind::Operator(op), CellKind::Value(a), CellKind::Value(b)],
            env,
        ) == Ok::<u64, Seq<char>>(v),
{
    let cells = seq![CellKind::Operator(op), CellKind::Value(a), CellKind::Value(b)];
    let e: Seq<Seq<char>> = Seq::empty();
    let ve: Seq<u64> = Seq::empty();
    assert(eval_step(cells, env, 3, e, ve) == eval_step(cells, env, 2, e, ve.push(b)));
    assert(eval_step(cells, env, 2, e, ve.push(b)) == eval_step(
        cells,
        env,
        1,
        e,
        ve.push(b).push(a),
    ));
    let vals = ve.push(b).push(a);
    assert(vals.last() == a);
    assert(vals[vals.len() - 2] == b);
    let res = apply_op(op, a, b)->Some_0;
    assert(eval_step(cells, env, 1, e, vals) == eval_step(
        cells,
        env,
        0,
        e,
        vals.drop_last().drop_last().push(res),
    ));
    let fin = vals.drop_last().drop_last().push(res);
    assert(eval_step(cells, env, 0, e, fin) == Ok::<(Seq<Seq<char>>, Seq<u64>), Seq<char>>((
        e,
        fin,
    )));
    assert(fin.last() == res);
}

/// An equation ending in an unbound variable fails with the
/// unresolved-variable error naming it: the reverse scan of the evaluator
/// visits the last cell first, whatever else the equation holds.
pub proof fn lemma_unbound_variable_fails(cells: Seq<CellKind>, env: Map<Seq<char>, u64>)
    requires
        cells.len() > 0,
        cells.last() matches CellKind::Variable(name) && !env.contains_key(name),
    ensures
        eval_outcome(cells, env) matches Err(m) && m == undefined_var_msg(
            cells.last()->Variable_0,
        ),
{
    assert(cells[cells.len() - 1] == cells.last());
}

/// An equation ending in an operator fails with the structural
/// insufficient-operands error naming it: the reverse scan of the
/// evaluator visits the operator first, when no value is on the stack yet.
pub proof fn lemma_trailing_operator_fails(cells: Seq<CellKind>, env: Map<Seq<char>, u64>)
    requires
        cells.len() > 0,
        cells.last() matches CellKind::Operator(op),
    ensures
        eval_outcome(cells, env) matches Err(m) && m == insufficient_msg(
            cells.last()->Operator_0,
        ),
{
    assert(cells[cells.len() - 1] == cells.last());
}

/// Variable substitution: evaluating the cells `op x y` with both
/// variables bound in the table yields exactly the operation applied to
/// their bound values, the topmost stack value being the left operand.
pub proof fn lemma_eval_substitution(
    op: Seq<char>,
    nx: Seq<char>,
    ny: Seq<char>,
    env: Map<Seq<char>, u64>,
)
    requires
        is_arith_op(op),
        env.contains_key(nx),
        env.contains_key(ny),
    ensures
        apply_op(op, env[nx], env[ny]) matches Some(v) && eval_outcome(
            seq![CellKind::Operator(op), CellKind::Variable(nx), CellKind::Variable(ny)],
            env,
        ) == Ok::<u64, Seq<char>>(v),
{
    let cells = seq![CellKind::Operator(op), CellKind::Variable(nx), CellKind::Variable(ny)];
    let e: Seq<Seq<char>> = Seq::empty();
    let ve: Seq<u64> = Seq::empty();
    let a = env[nx];
    let b = env[ny];
    assert(eval_step(cells, env, 3, e, ve) == eval_step(cells, env, 2, e, ve.push(b)));
    assert(eval_step(cells, env, 2, e, ve.push(b)) == eval_step(
        cells,
        env,
        1,
        e,
        ve.push(b).push(a),
    ));
    let vals = ve.push(b).push(a);
    assert(vals.last() == a);
    assert(vals[vals.len() - 2] == b);
    let res = apply_op(op, a, b)->Some_0;
    assert(eval_step(cells, env, 1, e, vals) == eval_step(
        cells,
        env,
        0,
        e,
        vals.drop_last().drop_last().push(res),
    ));
    let fin = vals.drop_last().drop_last().push(res);
    assert(eval_step(cells, env, 0, e, fin) == Ok::<(Seq<Seq<char>>, Seq<u64>), Seq<char>>((
        e,
        fin,
    )));
    assert(fin.last() == res);
}

/// The whole pipeline on one binary operation: translating the infix
/// tokens `x op x` to prefix, classifying the result, and evaluating the
/// cells yields exactly the operation applied to the parsed value of `x`,
/// whatever the binding table.
pub proof fn lemma_arithmetic_pipeline(
    x: Seq<char>,
    op: Seq<char>,
    b: u64,
    env: Map<Seq<char>, u64>,
)
    requires
        is_arith_op(op),
        is_operand_tok(x),
        parsed_bits(x) == Some(b),
    ensures
        infix_to_prefix_toks(seq![x, op, x]) == seq![op, x, x],
        classify_toks(seq![op, x, x]) == seq![
            CellKind::Operator(op),
            CellKind::Value(b),
            CellKind::Value(b),
        ],
        apply_op(op, b, b) matches Some(v) && eval_outcome(
            classify_toks(seq![op, x, x]),
            env,
        ) == Ok::<u64, Seq<char>>(v),
{
    lemma_round_trip_single_op(x, op, x);
    let ts = seq![op, x, x];
    assert(classify_upto(ts, 0) =~= Seq::<CellKind>::empty());
    assert(classify_upto(ts, 1) =~= seq![CellKind::Operator(op)]);
    assert(classify_upto(ts, 2) =~= seq![CellKind::Operator(op), CellKind::Value(b)]);
    assert(classify_upto(ts, 3) =~= seq![
        CellKind::Operator(op),
        CellKind::Value(b),
        CellKind::Value(b),
    ]);
    lemma_eval_single_op(op, b, b, env);
}

/// The texts of the first `i` cells: there are `i` of them and each is its
/// cell's rendering.
proof fn lemma_rendered_upto_props(cs: Seq<CellKind>, i: int)
    requires
        0 <= i <= cs.len(),
    ensures
        rendered_upto(cs, i).len() == i,
        forall|j: int| 0 <= j < i ==> rendered_upto(cs, i)[j] == render_cell(cs[j]),
    decreases i,
{
    if i > 0 {
        lemma_rendered_upto_props(cs, i - 1);
    }
}

/// Rendering only reads the cells in front of `i`: two sequences that agree
/// there render alike.
proof fn lemma_rendered_upto_congruent(a: Seq<CellKind>, b: Seq<CellKind>, i: int)
    requires
        0 <= i,
        i <= a.len(),
        i <= b.len(),
        forall|j: int| 0 <= j < i ==> render_cell(a[j]) == render_cell(b[j]),
    ensures
        rendered_upto(a, i) == rendered_upto(b, i),
    decreases i,
{
    if i > 0 {
        lemma_rendered_upto_congruent(a, b, i - 1);
    }
}

/// A token that classification turns into a cell rendering the token
/// itself: non-empty, at most eight characters, no parenthesis, not `=`,
/// and either one of the four operators or a token that does not parse as
/// a number.
pub open spec fn token_reparses(t: Seq<char>) -> bool {
    0 < t.len() <= 8 && !is_open(t) && !is_close(t) && !is_assign_tok(t) && (is_arith_op(t)
        || parsed_bits(t) is None)
}

/// Classifying a sequence of such tokens yields one cell per token, and
/// each cell renders back to its token.
proof fn lemma_classify_shape(ts: Seq<Seq<char>>, i: int)
    requires
        0 <= i <= ts.len(),
        forall|j: int| 0 <= j < ts.len() ==> token_reparses(#[trigger] ts[j]),
    ensures
        classify_upto(ts, i).len() == i,
        forall|j: int| 0 <= j < i ==> render_cell(#[trigger] classify_upto(ts, i)[j]) == ts[j],
    decreases i,
{
    if i > 0 {
        lemma_classify_shape(ts, i - 1);
        let t = ts[i - 1];
        assert(token_reparses(t));
        let c = classify_upto(ts, i)[i - 1];
        assert(trunc8(t) == t);
        assert(render_cell(c) == t);
        assert(forall|j: int| 0 <= j < i - 1 ==> classify_upto(ts, i)[j] == #[trigger] classify_upto(
            ts,
            i - 1,
        )[j]);
    }
}

/// A cell whose rendering survives a re-parse: one of the four operators,
/// or a variable whose (cut) name is non-empty, is no parenthesis and no
/// `=`, and does not parse as a number.
pub open spec fn cell_reparses(c: CellKind) -> bool {
    match c {
        CellKind::Operator(s) => is_arith_op(s),
        CellKind::Variable(s) => token_reparses(trunc8(s)),
        CellKind::Value(b) => false,
    }
}

/// Formatting is stable under a re-parse: for a sequence of operator and
/// variable cells whose renderings survive re-parsing, and whose rendered
/// text tokenizes back into exactly the rendered tokens, parsing the
/// rendered text succeeds, yields no binding, and yields cells that render
/// to the same text.
pub proof fn lemma_format_parse_stable(cells: Seq<CellKind>)
    requires
        forall|i: int| 0 <= i < cells.len() ==> cell_reparses(#[trigger] cells[i]),
        tokens_of(render_cells(cells)) == rendered_upto(cells, cells.len() as int),
    ensures
        parse_outcome(tokens_of(render_cells(cells))) matches Ok(q) && q.1 == Map::<
            Seq<char>,
            u64,
        >::empty() && render_cells(q.0) == render_cells(cells),
{
    let ts = tokens_of(render_cells(cells));
    lemma_rendered_upto_props(cells, cells.len() as int);
    assert(ts.len() == cells.len());
    assert forall|j: int| 0 <= j < ts.len() implies token_reparses(#[trigger] ts[j]) by {
        assert(ts[j] == render_cell(cells[j]));
        assert(cell_reparses(cells[j]));
        match cells[j] {
            CellKind::Operator(s) => {
                assert(trunc8(s) == s);
            },
            CellKind::Variable(s) => {},
            CellKind::Value(b) => {},
        }
    }
    if ts.len() > 0 {
        assert(!is_assign_tok(ts[0]));
    }
    let cs2 = classify_toks(ts);
    lemma_classify_shape(ts, ts.len() as int);
    assert forall|j: int| 0 <= j < cells.len() implies render_cell(#[trigger] cs2[j])
        == render_cell(cells[j]) by {
        assert(render_cell(cs2[j]) == ts[j]);
        assert(ts[j] == render_cell(cells[j]));
    }
    lemma_rendered_upto_congruent(cs2, cells, cells.len() as int);
}

} // verus!
