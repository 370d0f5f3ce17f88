//! Typed equation cells, the variable-binding table, the prefix parser,
//! the evaluator and the formatter.
//!
//! A prefix-notation string parses either into a sequence of [`Cell`]s (an
//! equation) or, when it starts with `=`, into a single variable binding.
//! A cell sequence is evaluated by a reverse scan with a value stack, and
//! rendered back to text with every payload cut to eight characters and
//! every numeric value shown with exactly eight digits after the decimal
//! point.

use vstd::prelude::*;
use crate::lexer::is_arith_op;
use crate::lexer::is_assign_tok;
use crate::lexer::is_char_tok;
use crate::lexer::is_close;
use crate::lexer::is_open;
use crate::lexer::join_spaces;
use crate::lexer::join_tokens;
use crate::lexer::str_eq;
use crate::lexer::tok_is;
use crate::lexer::tok_is_arith_op;
use crate::lexer::tokenize;
use crate::lexer::tokens_of;
use crate::numeric::add_bits;
use crate::numeric::add_bits_of;
use crate::numeric::div_bits;
use crate::numeric::div_bits_of;
use crate::numeric::fixed8_chars;
use crate::numeric::format_value;
use crate::numeric::mul_bits;
use crate::numeric::mul_bits_of;
use crate::numeric::parse_double;
use crate::numeric::parsed_bits;
use crate::numeric::sub_bits;
use crate::numeric::sub_bits_of;

verus! {

/// One element of an equation: an operator symbol (`+ - * /`), a variable
/// name, or a literal numeric value held as the bit pattern of a
/// double-precision float.
#[derive(Debug, Clone)]
pub enum Cell {
    Operator(String),
    Variable(String),
    Value(u64),
}

/// The mathematical shape of a [`Cell`]: the payload text as a character
/// sequence, or the numeric bit pattern.
pub enum CellKind {
    Operator(Seq<char>),
    Variable(Seq<char>),
    Value(u64),
}

impl View for Cell {
    type V = CellKind;

    open spec fn view(&self) -> CellKind {
        match self {
            Cell::Operator(s) => CellKind::Operator(s@),
            Cell::Variable(s) => CellKind::Variable(s@),
            Cell::Value(b) => CellKind::Value(*b),
        }
    }
}

impl DeepView for Cell {
    type V = CellKind;

    open spec fn deep_view(&self) -> CellKind {
        self.view()
    }
}

/// The binding table that `es` denotes: each entry binds its name to its
/// value, a later entry overriding an earlier one with the same name.
pub open spec fn entries_map(es: Seq<(Seq<char>, u64)>) -> Map<Seq<char>, u64>
    decreases es.len(),
{
    if es.len() == 0 {
        Map::empty()
    } else {
        entries_map(es.drop_last()).insert(es.last().0, es.last().1)
    }
}

/// A table binding variable names to numeric values (double bit patterns).
/// Lookup is by exact name equality; an insert with an existing name
/// replaces its value.
pub struct Bindings {
    entries: Vec<(String, u64)>,
}

impl View for Bindings {
    type V = Map<Seq<char>, u64>;

    closed spec fn view(&self) -> Map<Seq<char>, u64> {
        entries_map(self.entries.deep_view())
    }
}

proof fn lemma_entries_map_skip(es: Seq<(Seq<char>, u64)>, k: Seq<char>, i: int)
    requires
        0 <= i <= es.len(),
        forall|j: int| i <= j < es.len() ==> es[j].0 != k,
    ensures
        entries_map(es).contains_key(k) == entries_map(es.take(i)).contains_key(k),
        entries_map(es).contains_key(k) ==> entries_map(es)[k] == entries_map(es.take(i))[k],
    decreases es.len() - i,
{
    if i == es.len() {
        assert(es.take(i) =~= es);
    } else {
        lemma_entries_map_skip(es, k, i + 1);
        assert(es.take(i + 1).drop_last() =~= es.take(i));
        assert(es.take(i + 1).last() == es[i]);
    }
}

impl Bindings {
    /// An empty table.
    pub fn new() -> (r: Bindings)
        ensures
            r@ == Map::<Seq<char>, u64>::empty(),
    {
        let r = Bindings { entries: Vec::new() };
        proof {
            assert(r.entries.deep_view() =~= Seq::<(Seq<char>, u64)>::empty());
        }
        r
    }

    /// Bind `name` to `value`, replacing any earlier binding of `name`.
    pub fn insert(&mut self, name: String, value: u64)
        ensures
            final(self)@ == old(self)@.insert(name@, value),
    {
        let ghost prev = self.entries.deep_view();
        self.entries.push((name, value));
        proof {
            assert(self.entries.deep_view() =~= prev.push((name@, value)));
            assert(self.entries.deep_view().drop_last() =~= prev);
        }
    }

    /// The value bound to `name`, if any.
    pub fn get(&self, name: &str) -> (r: Option<u64>)
        ensures
            r == if self@.contains_key(name@) {
                Some(self@[name@])
            } else {
                None::<u64>
            },
    {
        let ghost es = self.entries.deep_view();
        let mut i: usize = self.entries.len();
        while i > 0
            invariant
                i <= self.entries@.len(),
                es == self.entries.deep_view(),
                forall|j: int| i <= j < es.len() ==> es[j].0 != name@,
            decreases i,
        {
            let hit = str_eq(self.entries[i - 1].0.as_str(), name);
            proof {
                assert(es[i - 1].0 == self.entries@[i - 1].0@);
            }
            if hit {
                proof {
                    lemma_entries_map_skip(es, name@, i as int);
                    assert(es.take(i as int).drop_last() =~= es.take(i - 1));
                    assert(es.take(i as int).last() == es[i - 1]);
                }
                return Some(self.entries[i - 1].1);
            }
            i = i - 1;
        }
        proof {
            lemma_entries_map_skip(es, name@, 0);
            assert(es.take(0) =~= Seq::<(Seq<char>, u64)>::empty());
        }
        None
    }

    /// Whether the table holds no binding at all.
    pub fn is_empty(&self) -> (r: bool)
        ensures
            r == (self@ == Map::<Seq<char>, u64>::empty()),
    {
        let r = self.entries.len() == 0;
        proof {
            let es = self.entries.deep_view();
            if es.len() == 0 {
                assert(es =~= Seq::<(Seq<char>, u64)>::empty());
            } else {
                assert(entries_map(es).contains_key(es.last().0));
            }
        }
        r
    }

    /// Merge every binding of `other` into this table; on a name bound in
    /// both, `other`'s value wins.
    pub fn merge_from(&mut self, other: &Bindings)
        ensures
            final(self)@ == old(self)@.union_prefer_right(other@),
    {
        let ghost os = other.entries.deep_view();
        let mut i: usize = 0;
        while i < other.entries.len()
            invariant
                i <= other.entries@.len(),
                os == other.entries.deep_view(),
                self@ == old(self)@.union_prefer_right(entries_map(os.take(i as int))),
            decreases other.entries@.len() - i,
        {
            let name = other.entries[i].0.clone();
            let value = other.entries[i].1;
            proof {
                assert(os[i as int].0 == name@);
                assert(os[i as int].1 == value);
            }
            self.insert(name, value);
            proof {
                assert(os.take(i + 1).drop_last() =~= os.take(i as int));
                assert(os.take(i + 1).last() == os[i as int]);
                assert(old(self)@.union_prefer_right(entries_map(os.take(i as int))).insert(
                    os[i as int].0,
                    os[i as int].1,
                ) =~= old(self)@.union_prefer_right(entries_map(os.take(i + 1))));
            }
            i = i + 1;
        }
        proof {
            assert(os.take(os.len() as int) =~= os);
        }
    }
}

/// The message of an ill-shaped assignment statement.
pub open spec fn assign_shape_msg() -> Seq<char> {
    "Equals can only take the form of variable = value."@
}

/// The message of an assignment statement with tokens left over after the
/// value.
pub open spec fn assign_extra_msg() -> Seq<char> {
    "Equals can only take the form of variable = value. Cannot solve for value."@
}

/// The cells of the first `i` tokens of `ts`: parentheses and `=` tokens
/// are dropped, `+ - * /` become operators, tokens that parse as numbers
/// become values, and everything else becomes a variable.
pub open spec fn classify_upto(ts: Seq<Seq<char>>, i: int) -> Seq<CellKind>
    decreases i,
{
    if i <= 0 {
        Seq::empty()
    } else {
        let t = ts[i - 1];
        let rest = classify_upto(ts, i - 1);
        if is_open(t) || is_close(t) || is_assign_tok(t) {
            rest
        } else if is_arith_op(t) {
            rest.push(CellKind::Operator(t))
        } else {
            match parsed_bits(t) {
                Some(b) => rest.push(CellKind::Value(b)),
                None => rest.push(CellKind::Variable(t)),
            }
        }
    }
}

/// The cells of the whole token sequence `ts`.
pub open spec fn classify_toks(ts: Seq<Seq<char>>) -> Seq<CellKind> {
    classify_upto(ts, ts.len() as int)
}

/// What parsing the token sequence `ts` yields.  A sequence beginning with
/// `=` is an assignment statement: it is valid exactly when two tokens
/// follow, the name is non-empty and the second parses as a number, and it
/// then yields no cells and the one binding.  Any other sequence yields its
/// cells and no binding.
pub open spec fn parse_outcome(ts: Seq<Seq<char>>) -> Result<
    (Seq<CellKind>, Map<Seq<char>, u64>),
    Seq<char>,
> {
    if ts.len() > 0 && is_assign_tok(ts[0]) {
        if ts.len() > 3 {
            Err(assign_extra_msg())
        } else if ts.len() < 3 {
            Err(assign_shape_msg())
        } else {
            match parsed_bits(ts[2]) {
                Some(b) => if ts[1].len() == 0 {
                    Err(assign_shape_msg())
                } else {
                    Ok((Seq::empty(), Map::<Seq<char>, u64>::empty().insert(ts[1], b)))
                },
                None => Err(assign_shape_msg()),
            }
        }
    } else {
        Ok((classify_toks(ts), Map::empty()))
    }
}

/// Parse prefix-notation text into an equation (a cell sequence) or, for an
/// input beginning with `=`, a one-entry binding table.  The two are
/// mutually exclusive: an equation comes with an empty table, a valid
/// assignment with an empty equation.
pub fn parse_to_vec_and_map(in_str: &str) -> (r: Result<(Vec<Cell>, Bindings), String>)
    ensures
        match r {
            Ok(p) => parse_outcome(tokens_of(in_str@)) matches Ok(q) && p.0.deep_view() == q.0
                && p.1@ == q.1,
            Err(m) => parse_outcome(tokens_of(in_str@)) matches Err(e) && m@ == e,
        },
{
    let toks = tokenize(in_str);
    let ghost td = toks.deep_view();
    let n = toks.len();
    if n > 0 && tok_is(toks[0].as_str(), '=') {
        if n > 3 {
            return Err(
                String::from_str(
                    "Equals can only take the form of variable = value. Cannot solve for value.",
                ),
            );
        }
        if n < 3 {
            return Err(String::from_str("Equals can only take the form of variable = value."));
        }
        let value = parse_double(toks[2].as_str());
        match value {
            Some(b) => {
                if toks[1].as_str().unicode_len() == 0 {
                    return Err(
                        String::from_str("Equals can only take the form of variable = value."),
                    );
                }
                let mut map = Bindings::new();
                map.insert(toks[1].clone(), b);
                let cells: Vec<Cell> = Vec::new();
                proof {
                    assert(cells.deep_view() =~= Seq::<CellKind>::empty());
                }
                Ok((cells, map))
            },
            None => {
                return Err(String::from_str("Equals can only take the form of variable = value."));
            },
        }
    } else {
        let mut cells: Vec<Cell> = Vec::new();
        proof {
            assert(cells.deep_view() =~= classify_upto(td, 0));
        }
        let mut i: usize = 0;
        while i < n
            invariant
                i <= n,
                n == toks@.len(),
                td == toks.deep_view(),
                cells.deep_view() == classify_upto(td, i as int),
            decreases n - i,
        {
            let ghost prev = cells.deep_view();
            let t = &toks[i];
            proof {
                assert(td[i as int] == t@);
            }
            if tok_is(t.as_str(), '(') || tok_is(t.as_str(), ')') || tok_is(t.as_str(), '=') {
                // structural tokens carry no cell
            } else if tok_is_arith_op(t.as_str()) {
                cells.push(Cell::Operator(t.clone()));
                proof {
                    assert(cells.deep_view() =~= prev.push(CellKind::Operator(td[i as int])));
                }
            } else {
                match parse_double(t.as_str()) {
                    Some(b) => {
                        cells.push(Cell::Value(b));
                        proof {
                            assert(cells.deep_view() =~= prev.push(CellKind::Value(b)));
                        }
                    },
                    None => {
                        cells.push(Cell::Variable(t.clone()));
                        proof {
                            assert(cells.deep_view() =~= prev.push(
                                CellKind::Variable(td[i as int]),
                            ));
                        }
                    },
                }
            }
            i = i + 1;
        }
        let map = Bindings::new();
        Ok((cells, map))
    }
}

/// The result of one arithmetic operation on two double bit patterns, when
/// `op` is one of the four operator symbols.
pub open spec fn apply_op(op: Seq<char>, a: u64, b: u64) -> Option<u64> {
    if is_char_tok(op, '+') {
        Some(add_bits_of(a, b))
    } else if is_char_tok(op, '-') {
        Some(sub_bits_of(a, b))
    } else if is_char_tok(op, '*') {
        Some(mul_bits_of(a, b))
    } else if is_char_tok(op, '/') {
        Some(div_bits_of(a, b))
    } else {
        None
    }
}

/// The message of a lookup miss for the variable `name`.
pub open spec fn undefined_var_msg(name: Seq<char>) -> Seq<char> {
    "Variable "@ + name + " does not have a defined value."@
}

/// The message of an operator met with fewer than two available operands.
pub open spec fn insufficient_msg(op: Seq<char>) -> Seq<char> {
    "Not enough values to apply to Operator "@ + op + "."@
}

/// The message of an operator symbol outside the supported set.
pub open spec fn cannot_process_msg(op: Seq<char>) -> Seq<char> {
    "Cannot process: ("@ + op + ")"@
}

/// The message of operators left unconsumed at the end of evaluation.
pub open spec fn leftover_msg() -> Seq<char> {
    "Did not use all operators!"@
}

/// The reverse scan of the evaluator over `cells[0 .. i]`, visiting the
/// cells from the last to the first with an operator stack and a value
/// stack: the stacks after the scan, or the first error.  A value is
/// pushed; a variable is looked up in `env` and its value pushed; an
/// operator is pushed and at once applied to the two most recently pushed
/// values (the topmost as its left operand), the result replacing them.
pub open spec fn eval_step(
    cells: Seq<CellKind>,
    env: Map<Seq<char>, u64>,
    i: int,
    ops: Seq<Seq<char>>,
    vals: Seq<u64>,
) -> Result<(Seq<Seq<char>>, Seq<u64>), Seq<char>>
    decreases i,
{
    if i <= 0 {
        Ok((ops, vals))
    } else {
        match cells[i - 1] {
            CellKind::Value(b) => eval_step(cells, env, i - 1, ops, vals.push(b)),
            CellKind::Variable(name) => if env.contains_key(name) {
                eval_step(cells, env, i - 1, ops, vals.push(env[name]))
            } else {
                Err(undefined_var_msg(name))
            },
            CellKind::Operator(op) => if vals.len() >= 2 {
                match apply_op(op, vals.last(), vals[vals.len() - 2]) {
                    Some(res) => eval_step(
                        cells,
                        env,
                        i - 1,
                        ops,
                        vals.drop_last().drop_last().push(res),
                    ),
                    None => Err(cannot_process_msg(op)),
                }
            } else {
                Err(insufficient_msg(op))
            },
        }
    }
}

/// What evaluating `cells` against `env` yields: the topmost value left on
/// the value stack, or the first error of the scan.
pub open spec fn eval_outcome(cells: Seq<CellKind>, env: Map<Seq<char>, u64>) -> Result<
    u64,
    Seq<char>,
> {
    match eval_step(cells, env, cells.len() as int, Seq::empty(), Seq::empty()) {
        Ok(so) => if so.0.len() > 0 {
            Err(leftover_msg())
        } else {
            Ok(so.1.last())
        },
        Err(m) => Err(m),
    }
}

/// Apply one operator to two values: `left op right`, or the
/// unknown-operator error.
fn process(op: &String, left: u64, right: u64) -> (r: Result<Cell, String>)
    ensures
        match r {
            Ok(c) => apply_op(op@, left, right) matches Some(v) && c@ == CellKind::Value(v),
            Err(m) => apply_op(op@, left, right) is None && m@ == cannot_process_msg(op@),
        },
{
    if tok_is(op.as_str(), '+') {
        Ok(Cell::Value(add_bits(left, right)))
    } else if tok_is(op.as_str(), '-') {
        Ok(Cell::Value(sub_bits(left, right)))
    } else if tok_is(op.as_str(), '*') {
        Ok(Cell::Value(mul_bits(left, right)))
    } else if tok_is(op.as_str(), '/') {
        Ok(Cell::Value(div_bits(left, right)))
    } else {
        let mut m = String::from_str("Cannot process: (");
        m.append(op.as_str());
        m.append(")");
        Err(m)
    }
}

/// Evaluate the non-empty equation `vec0` against the binding table `map`,
/// yielding a single value cell or the first error of the scan: an unbound
/// variable, an operator with fewer than two operands, an operator outside
/// the supported set, or operators left unconsumed at the end.
pub fn calculate(vec0: &Vec<Cell>, map: &Bindings) -> (r: Result<Vec<Cell>, String>)
    requires
        vec0@.len() > 0,
    ensures
        match r {
            Ok(out) => eval_outcome(vec0.deep_view(), map@) matches Ok(v) && out.deep_view()
                == seq![CellKind::Value(v)],
            Err(m) => eval_outcome(vec0.deep_view(), map@) matches Err(e) && m@ == e,
        },
{
    let ghost cd = vec0.deep_view();
    let n = vec0.len();
    let mut stack_ops: Vec<String> = Vec::new();
    let mut stack_vals: Vec<u64> = Vec::new();
    proof {
        assert(stack_ops.deep_view() =~= Seq::<Seq<char>>::empty());
        assert(stack_vals@ =~= Seq::<u64>::empty());
    }
    let mut i: usize = n;
    while i > 0
        invariant
            i <= n,
            n == vec0@.len(),
            cd == vec0.deep_view(),
            i < n ==> stack_vals@.len() >= 1,
            eval_step(cd, map@, n as int, Seq::empty(), Seq::empty()) == eval_step(
                cd,
                map@,
                i as int,
                stack_ops.deep_view(),
                stack_vals@,
            ),
        decreases i,
    {
        let ghost op0 = stack_ops.deep_view();
        let ghost va0 = stack_vals@;
        let cell = &vec0[i - 1];
        proof {
            assert(cd[i - 1] == cell@);
        }
        match cell {
            Cell::Value(b) => {
                stack_vals.push(*b);
            },
            Cell::Variable(name) => {
                match map.get(name.as_str()) {
                    Some(v) => {
                        stack_vals.push(v);
                    },
                    None => {
                        let mut m = String::from_str("Variable ");
                        m.append(name.as_str());
                        m.append(" does not have a defined value.");
                        return Err(m);
                    },
                }
            },
            Cell::Operator(op) => {
                stack_ops.push(op.clone());
                proof {
                    assert(stack_ops.deep_view() =~= op0.push(op@));
                }
                if stack_vals.len() >= 2 {
                    let cell1 = stack_vals.pop().unwrap();
                    let cell2 = stack_vals.pop().unwrap();
                    let op2 = stack_ops.pop().unwrap();
                    proof {
                        assert(stack_ops.deep_view() =~= op0);
                        assert(cell1 == va0.last());
                        assert(cell2 == va0[va0.len() - 2]);
                        assert(stack_vals@ =~= va0.drop_last().drop_last());
                    }
                    match process(&op2, cell1, cell2) {
                        Ok(c) => {
                            match c {
                                Cell::Value(res) => {
                                    stack_vals.push(res);
                                },
                                _ => {
                                    proof {
                                        assert(false);
                                    }
                                },
                            }
                        },
                        Err(m) => {
                            return Err(m);
                        },
                    }
                } else {
                    let mut m = String::from_str("Not enough values to apply to Operator ");
                    m.append(op.as_str());
                    m.append(".");
                    return Err(m);
                }
            },
        }
        proof {
            assert(eval_step(cd, map@, i as int, op0, va0) == eval_step(
                cd,
                map@,
                i - 1,
                stack_ops.deep_view(),
                stack_vals@,
            ));
        }
        i = i - 1;
    }
    if stack_ops.len() > 0 {
        return Err(String::from_str("Did not use all operators!"));
    }
    let v = stack_vals.pop().unwrap();
    let mut ret: Vec<Cell> = Vec::new();
    ret.push(Cell::Value(v));
    proof {
        assert(ret.deep_view() =~= seq![CellKind::Value(v)]);
    }
    Ok(ret)
}

/// The first eight characters of `s`, or all of it when it is shorter.
pub open spec fn trunc8(s: Seq<char>) -> Seq<char> {
    if s.len() <= 8 {
        s
    } else {
        s.take(8)
    }
}

/// The text of one cell: a numeric value with exactly eight digits after
/// the decimal point, any other payload cut to at most eight characters.
pub open spec fn render_cell(c: CellKind) -> Seq<char> {
    match c {
        CellKind::Value(b) => fixed8_chars(b),
        CellKind::Variable(s) => trunc8(s),
        CellKind::Operator(s) => trunc8(s),
    }
}

/// The texts of the first `i` cells of `cs`, in order.
pub open spec fn rendered_upto(cs: Seq<CellKind>, i: int) -> Seq<Seq<char>>
    decreases i,
{
    if i <= 0 {
        Seq::empty()
    } else {
        rendered_upto(cs, i - 1).push(render_cell(cs[i - 1]))
    }
}

/// The text of the cell sequence `cs`: one token per cell, joined with
/// single spaces.
pub open spec fn render_cells(cs: Seq<CellKind>) -> Seq<char> {
    join_spaces(rendered_upto(cs, cs.len() as int))
}

/// The first eight characters of `s`, or all of it when it is shorter.
fn trunc8_str(s: &str) -> (r: String)
    ensures
        r@ == trunc8(s@),
{
    let n = s.unicode_len();
    if n <= 8 {
        s.to_owned()
    } else {
        let cut = s.substring_char(0, 8);
        proof {
            assert(s@.subrange(0, 8) =~= s@.take(8));
        }
        cut.to_owned()
    }
}

/// Render a cell sequence to canonical prefix text: one token per cell,
/// space separated, numeric values with exactly eight digits after the
/// decimal point and any other payload cut to eight characters.
pub fn convert_cell_vector_to_string(vec: &Vec<Cell>) -> (r: String)
    ensures
        r@ == render_cells(vec.deep_view()),
{
    let ghost cd = vec.deep_view();
    let mut toks: Vec<String> = Vec::new();
    proof {
        assert(toks.deep_view() =~= rendered_upto(cd, 0));
    }
    let mut i: usize = 0;
    while i < vec.len()
        invariant
            i <= vec@.len(),
            cd == vec.deep_view(),
            toks.deep_view() == rendered_upto(cd, i as int),
        decreases vec@.len() - i,
    {
        let ghost prev = toks.deep_view();
        let cell = &vec[i];
        proof {
            assert(cd[i as int] == cell@);
        }
        match cell {
            Cell::Value(b) => {
                toks.push(format_value(*b));
            },
            Cell::Variable(s) => {
                toks.push(trunc8_str(s.as_str()));
            },
            Cell::Operator(s) => {
                toks.push(trunc8_str(s.as_str()));
            },
        }
        proof {
            assert(toks.deep_view() =~= prev.push(render_cell(cd[i as int])));
        }
        i = i + 1;
    }
    join_tokens(&toks)
}

} // verus!
