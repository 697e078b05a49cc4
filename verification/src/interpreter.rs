//! Running programs directly: statements are executed in order on an environment of
//! variable scopes, and what the built-in print functions write goes to a terminal.
use vstd::prelude::*;
use vstd::arithmetic::power::pow;
use crate::tokenizer::Error;
use crate::parser::BaseExpr;
use crate::parser::BaseExprData;
use crate::parser::BaseExprView;
use crate::parser::BaseExprDataView;
use crate::parser::RecExpr;
use crate::parser::RecExprData;
use crate::parser::RecExprView;
use crate::parser::RecExprDataView;
use crate::parser::BinaryKind;
use crate::parser::rec_size;
use crate::parser::recs_size;
use crate::parser::stmt_size;
use crate::parser::stmts_size;
use crate::parser::lemma_recs_size;
use crate::parser::lemma_stmts_size;
use crate::parser::rec_view;
use crate::parser::base_view;
use crate::parser::bases_view;
use crate::parser::recs_view;
use crate::parser::strings_view;
use crate::parser::copy_strings;
use crate::parser::copy_base_exprs;
use crate::parser::lemma_bases_view;
use crate::parser::lemma_recs_view;
use crate::text::concat;
use crate::text::int_text;
use crate::text::nat_digits;
use crate::text::i32_to_string;

verus! {

/// How deep function calls may nest while a program runs: the largest 64-bit number, a
/// depth that the machine's stack gives out long before.
pub const CALL_DEPTH_LIMIT: u64 = 0xFFFF_FFFF_FFFF_FFFF;

/// The mathematical content of a value.
pub enum ValueView {
    Number(i32),
    Bool(bool),
    Str(Seq<char>),
    /// A function: its name, parameter names and body.
    Function(Seq<char>, Seq<Seq<char>>, Seq<BaseExprView<()>>),
    /// A built-in function: `print`, or `println` when the flag is set.
    Standard(bool),
    List(Seq<ValueView>),
}

/// What running a statement says to the statements around it.
pub enum Flow {
    /// A `return`, with its value if it had one.
    Return(Option<ValueView>),
    /// A `break`.
    Break,
    /// Nothing: go on.
    Empty,
}

/// An error of a running program.
pub enum RunErrorView {
    /// An error with a message at a place in the source.
    Located(Seq<char>, int, int, int),
    /// An expression kind that cannot run.
    Unsupported,
    /// Integer overflow or division by zero.
    Fault,
    /// Function calls nested deeper than the limit.
    TooDeep,
}

/// The state of a running program: the variable scopes (innermost last) and the lines of
/// the terminal (the last one still open).
pub struct RunState {
    pub env: Seq<Seq<(Seq<char>, ValueView)>>,
    pub term: Seq<Seq<char>>,
}

/// The message of an arithmetic fault.
pub open spec fn fault_message() -> Seq<char> {
    "Arithmetic overflow or division by zero"@
}

/// The message of a too deep nesting of calls.
pub open spec fn too_deep_message() -> Seq<char> {
    "Function calls are nested too deeply"@
}

/// Whether an error is the one the specification describes.
pub open spec fn run_error_matches(e: Error, v: RunErrorView) -> bool {
    match v {
        RunErrorView::Located(m, r, a, b) => e.is_located(m, r, a, b),
        RunErrorView::Unsupported => e matches Error::SimpleError { message } && message@ == "not implemented"@,
        RunErrorView::Fault => e matches Error::SimpleError { message } && message@ == fault_message(),
        RunErrorView::TooDeep => e matches Error::SimpleError { message } && message@ == too_deep_message(),
    }
}

/// How a value is printed.
pub open spec fn value_text(v: ValueView) -> Seq<char>
    decreases v,
{
    match v {
        ValueView::Number(n) => int_text(n as int),
        ValueView::Bool(b) => if b { "true"@ } else { "false"@ },
        ValueView::Str(s) => s,
        ValueView::Function(name, _, _) => "function "@ + name,
        ValueView::Standard(_) => "standard function"@,
        ValueView::List(vs) => "["@ + values_text(vs) + "]"@,
    }
}

/// The printed values, separated by commas.
pub open spec fn values_text(vs: Seq<ValueView>) -> Seq<char>
    decreases vs,
{
    if vs.len() == 0 {
        seq![]
    } else if vs.len() == 1 {
        value_text(vs[0])
    } else {
        values_text(vs.drop_last()) + ", "@ + value_text(vs.last())
    }
}

/// The index of the first binding of `name` in a scope, from index `i` on.
pub open spec fn vfirst(name: Seq<char>, scope: Seq<(Seq<char>, ValueView)>, i: int) -> Option<int>
    decreases scope.len() - i,
{
    if i < 0 || i >= scope.len() {
        None
    } else if scope[i].0 == name {
        Some(i)
    } else {
        vfirst(name, scope, i + 1)
    }
}

/// The value bound to `name` in the innermost scope that binds it.
pub open spec fn find_value(name: Seq<char>, env: Seq<Seq<(Seq<char>, ValueView)>>) -> Option<ValueView>
    decreases env.len(),
{
    if env.len() == 0 {
        None
    } else {
        match vfirst(name, env.last(), 0) {
            Some(i) => Some(env.last()[i].1),
            None => find_value(name, env.drop_last()),
        }
    }
}

/// The innermost scope changed by `f` (a new scope made by `f` when there is none).
pub open spec fn with_last(env: Seq<Seq<(Seq<char>, ValueView)>>, scope: Seq<(Seq<char>, ValueView)>) -> Seq<Seq<(Seq<char>, ValueView)>> {
    if env.len() == 0 {
        seq![scope]
    } else {
        env.update(env.len() - 1, scope)
    }
}

/// The innermost scope (an empty one when there is none).
pub open spec fn last_scope(env: Seq<Seq<(Seq<char>, ValueView)>>) -> Seq<(Seq<char>, ValueView)> {
    if env.len() == 0 {
        seq![]
    } else {
        env.last()
    }
}

/// The scope with the first binding of `name` set to `v`, if it has one.
pub open spec fn update_value(v: ValueView, name: Seq<char>, scope: Seq<(Seq<char>, ValueView)>) -> Option<Seq<(Seq<char>, ValueView)>> {
    match vfirst(name, scope, 0) {
        Some(i) => Some(scope.update(i, (name, v))),
        None => None,
    }
}

/// The scope with the first binding of `name` set to `v`, or with one added at its end.
pub open spec fn set_value(v: ValueView, name: Seq<char>, scope: Seq<(Seq<char>, ValueView)>) -> Seq<(Seq<char>, ValueView)> {
    match update_value(v, name, scope) {
        Some(s) => s,
        None => scope.push((name, v)),
    }
}

/// The state with `name` set to `v` in the innermost scope.
pub open spec fn assign(st: RunState, name: Seq<char>, v: ValueView) -> RunState {
    RunState { env: with_last(st.env, set_value(v, name, last_scope(st.env))), ..st }
}

/// The terminal with `s` written at the end of its last line.
pub open spec fn write(term: Seq<Seq<char>>, s: Seq<char>) -> Seq<Seq<char>> {
    if term.len() == 0 {
        seq![s]
    } else {
        term.update(term.len() - 1, term.last() + s)
    }
}

/// The terminal with each value written at the end of its last line, in order.
pub open spec fn write_values(term: Seq<Seq<char>>, vs: Seq<ValueView>) -> Seq<Seq<char>>
    decreases vs.len(),
{
    if vs.len() == 0 {
        term
    } else {
        write(write_values(term, vs.drop_last()), value_text(vs.last()))
    }
}

/// The numbers from zero up to (not including) `n`.
pub open spec fn range_values(n: i32) -> Seq<ValueView> {
    if n <= 0 {
        seq![]
    } else {
        Seq::new(n as nat, |i: int| ValueView::Number(i as i32))
    }
}

/// `a + b`: numbers added (a fault on overflow), strings and lists joined, a value
/// appended to a list; any other pair is an error at `pos`.
pub open spec fn add_values(a: Option<ValueView>, b: Option<ValueView>, pos: (int, int, int)) -> Result<ValueView, RunErrorView> {
    match (a, b) {
        (Some(ValueView::Number(x)), Some(ValueView::Number(y))) => match x.checked_add(y) {
            Some(z) => Ok(ValueView::Number(z)),
            None => Err(RunErrorView::Fault),
        },
        (Some(ValueView::Str(x)), Some(ValueView::Str(y))) => Ok(ValueView::Str(x + y)),
        (Some(ValueView::List(x)), Some(ValueView::List(y))) => Ok(ValueView::List(x + y)),
        (Some(ValueView::List(x)), Some(y)) => Ok(ValueView::List(x.push(y))),
        _ => Err(RunErrorView::Located(operator_message_text("+"@, a, b), pos.0, pos.1, pos.2)),
    }
}

/// `a` to the power `b` for a non-negative `b`, if it fits in 32 bits.
pub open spec fn power(a: i32, b: i32) -> Option<i32> {
    let p = pow(a as int, b as nat);
    if i32::MIN <= p <= i32::MAX {
        Some(p as i32)
    } else {
        None
    }
}

/// How an operator is written in messages.
pub open spec fn op_symbol(k: BinaryKind) -> Seq<char> {
    match k {
        BinaryKind::Subtract => "-"@,
        BinaryKind::Multiply => "*"@,
        BinaryKind::Divide => "/"@,
        BinaryKind::Power => "^"@,
        BinaryKind::GreaterThan => ">"@,
        BinaryKind::GreaterThanOrEqual => ">="@,
        BinaryKind::LessThan => "<"@,
        BinaryKind::LessThanOrEqual => "<="@,
        BinaryKind::And => "AND"@,
        BinaryKind::Or => "OR"@,
        BinaryKind::Equals => "=="@,
        BinaryKind::NotEquals => "!="@,
        BinaryKind::Add => "+"@,
    }
}

/// The message of a name that no scope binds.
pub open spec fn not_found_message(what: Seq<char>, name: Seq<char>) -> Seq<char> {
    what + name + " not found"@
}

/// The message of an index outside a list: the index as the machine's unsigned word
/// (a negative index wraps round), and the list's length.
pub open spec fn index_message(i: i32, len: nat) -> Seq<char> {
    "Index "@ + nat_digits((i as usize) as nat) + " out of bounds for list of length "@ + nat_digits(len)
}

/// The value of a binary operation on the values of its operands; errors are at `pos`,
/// the place of the whole expression.
pub open spec fn combine(k: BinaryKind, a: Option<ValueView>, b: Option<ValueView>, pos: (int, int, int)) -> Result<Option<ValueView>, RunErrorView> {
    let here = RunErrorView::Located(operator_message_text(op_symbol(k), a, b), pos.0, pos.1, pos.2);
    let num = |r: Option<i32>| match r {
        Some(z) => Ok(Some(ValueView::Number(z))),
        None => Err(RunErrorView::Fault),
    };
    match k {
        BinaryKind::Add => match add_values(a, b, pos) {
            Ok(v) => Ok(Some(v)),
            Err(e) => Err(e),
        },
        BinaryKind::Subtract => match (a, b) {
            (Some(ValueView::Number(x)), Some(ValueView::Number(y))) => num(x.checked_sub(y)),
            _ => Err(here),
        },
        BinaryKind::Multiply => match (a, b) {
            (Some(ValueView::Number(x)), Some(ValueView::Number(y))) => num(x.checked_mul(y)),
            _ => Err(here),
        },
        BinaryKind::Divide => match (a, b) {
            (Some(ValueView::Number(x)), Some(ValueView::Number(y))) => num(x.checked_div(y)),
            _ => Err(here),
        },
        BinaryKind::Power => match (a, b) {
            (Some(ValueView::Number(x)), Some(ValueView::Number(y))) => if y < 0 {
                Err(RunErrorView::Located("Cannot raise to a negative power"@, pos.0, pos.1, pos.2))
            } else {
                num(power(x, y))
            },
            _ => Err(here),
        },
        BinaryKind::GreaterThan => match (a, b) {
            (Some(ValueView::Number(x)), Some(ValueView::Number(y))) => Ok(Some(ValueView::Bool(x > y))),
            _ => Err(here),
        },
        BinaryKind::GreaterThanOrEqual => match (a, b) {
            (Some(ValueView::Number(x)), Some(ValueView::Number(y))) => Ok(Some(ValueView::Bool(x >= y))),
            _ => Err(here),
        },
        BinaryKind::LessThan => match (a, b) {
            (Some(ValueView::Number(x)), Some(ValueView::Number(y))) => Ok(Some(ValueView::Bool(x < y))),
            _ => Err(here),
        },
        BinaryKind::LessThanOrEqual => match (a, b) {
            (Some(ValueView::Number(x)), Some(ValueView::Number(y))) => Ok(Some(ValueView::Bool(x <= y))),
            _ => Err(here),
        },
        BinaryKind::And => match (a, b) {
            (Some(ValueView::Bool(x)), Some(ValueView::Bool(y))) => Ok(Some(ValueView::Bool(x && y))),
            _ => Err(here),
        },
        BinaryKind::Or => match (a, b) {
            (Some(ValueView::Bool(x)), Some(ValueView::Bool(y))) => Ok(Some(ValueView::Bool(x || y))),
            _ => Err(here),
        },
        BinaryKind::Equals => match (a, b) {
            (Some(ValueView::Number(x)), Some(ValueView::Number(y))) => Ok(Some(ValueView::Bool(x == y))),
            (Some(ValueView::Bool(x)), Some(ValueView::Bool(y))) => Ok(Some(ValueView::Bool(x == y))),
            (Some(ValueView::Str(x)), Some(ValueView::Str(y))) => Ok(Some(ValueView::Bool(x == y))),
            (Some(_), Some(_)) => Ok(Some(ValueView::Bool(false))),
            _ => Err(here),
        },
        BinaryKind::NotEquals => match (a, b) {
            (Some(ValueView::Number(x)), Some(ValueView::Number(y))) => Ok(Some(ValueView::Bool(x != y))),
            (Some(ValueView::Bool(x)), Some(ValueView::Bool(y))) => Ok(Some(ValueView::Bool(x != y))),
            (Some(ValueView::Str(x)), Some(ValueView::Str(y))) => Ok(Some(ValueView::Bool(x != y))),
            (Some(_), Some(_)) => Ok(Some(ValueView::Bool(true))),
            _ => Err(here),
        },
    }
}

/// How a block of statements treats what its statements say.
#[derive(PartialEq, Eq, Structural, Clone, Copy)]
pub enum BlockMode {
    /// The body of an `if`, `else if` or `else`: a `break` ends the block.
    Branch,
    /// The body of a `for` loop: a `break` ends the loop.
    Loop,
    /// The body of a function: a `break` is an error.
    Function,
    /// The program itself: `return` and `break` are passed over.
    Top,
}

/// What running a block gives: go on with the statements after it, or stop with what a
/// statement said.
pub enum BlockOutcome {
    Continue,
    Stop(Flow),
}

/// What a block does with what one of its statements said; `pos` is that statement's
/// place.
pub open spec fn block_step(mode: BlockMode, f: Flow, pos: (int, int, int)) -> Result<BlockOutcome, RunErrorView> {
    match mode {
        BlockMode::Top => Ok(BlockOutcome::Continue),
        _ => match f {
            Flow::Empty => Ok(BlockOutcome::Continue),
            Flow::Return(v) => Ok(BlockOutcome::Stop(Flow::Return(v))),
            Flow::Break => match mode {
                BlockMode::Branch => Ok(BlockOutcome::Stop(Flow::Empty)),
                BlockMode::Loop => Ok(BlockOutcome::Stop(Flow::Break)),
                _ => Err(RunErrorView::Located("Cannot break out of a function"@, pos.0, pos.1, pos.2)),
            },
        },
    }
}

/// What a statement that ran a block says.
pub open spec fn outcome_flow(o: BlockOutcome) -> Flow {
    match o {
        BlockOutcome::Stop(f) => f,
        BlockOutcome::Continue => Flow::Empty,
    }
}

/// The place of an expression.
pub open spec fn epos(e: RecExprView<()>) -> (int, int, int) {
    (e.row, e.col_start, e.col_end)
}

/// The place of a statement.
pub open spec fn bpos(b: BaseExprView<()>) -> (int, int, int) {
    (b.row, b.col_start, b.col_end)
}

/// The scope binding each parameter to its value, in order.
pub open spec fn call_scope(params: Seq<Seq<char>>, vals: Seq<ValueView>) -> Seq<(Seq<char>, ValueView)> {
    Seq::new(params.len(), |i: int| (params[i], vals[i]))
}

/// The scopes with the innermost one dropped, if there is one.
pub open spec fn pop_env(env: Seq<Seq<(Seq<char>, ValueView)>>) -> Seq<Seq<(Seq<char>, ValueView)>> {
    if env.len() == 0 {
        env
    } else {
        env.drop_last()
    }
}

/// Evaluates an expression: its value (none for a call that returns nothing and for an
/// assignment) and the state afterwards. Operands are evaluated left to right.
pub open spec fn eval(e: RecExprView<()>, st: RunState, fuel: nat) -> Result<(Option<ValueView>, RunState), RunErrorView>
    decreases fuel, rec_size(e), 1nat,
{
    let here = |m: Seq<char>| RunErrorView::Located(m, e.row, e.col_start, e.col_end);
    match e.data {
        RecExprDataView::Variable(n) => match find_value(n, st.env) {
            Some(v) => Ok((Some(v), st)),
            None => Err(here("Variable not found: "@ + n)),
        },
        RecExprDataView::Number(n) => Ok((Some(ValueView::Number(n)), st)),
        RecExprDataView::Boolean(b) => Ok((Some(ValueView::Bool(b)), st)),
        RecExprDataView::Str(v) => Ok((Some(ValueView::Str(v)), st)),
        RecExprDataView::Binary(k, l, r) => eval_binary(k, *l, *r, epos(e), st, fuel),
        RecExprDataView::Minus(x) => match eval(*x, st, fuel) {
            Err(err) => Err(err),
            Ok((Some(ValueView::Number(v)), st1)) => if v == i32::MIN {
                Err(RunErrorView::Fault)
            } else {
                Ok((Some(ValueView::Number((-v) as i32)), st1))
            },
            Ok((Some(other), _)) => Err(here("Cannot apply operator - on type "@ + value_type_name(other))),
            Ok((None, _)) => Err(here("Cannot apply operator - on empty"@)),
        },
        RecExprDataView::Not(x) => match eval(*x, st, fuel) {
            Err(err) => Err(err),
            Ok((Some(ValueView::Bool(b)), st1)) => Ok((Some(ValueView::Bool(!b)), st1)),
            Ok((Some(other), _)) => Err(here("Cannot apply operator NOT on type "@ + value_type_name(other))),
            Ok((None, _)) => Err(here("Cannot apply operator NOT on empty"@)),
        },
        RecExprDataView::FunctionCall(name, args) => match find_value(name, st.env) {
            None => Err(here(not_found_message("Function "@, name))),
            Some(f) => match eval_list(args, "Cannot pass Empty to a function"@, st, fuel) {
                Err(err) => Err(err),
                Ok((vals, st1)) => call(f, vals, name, epos(e), st1, fuel),
            },
        },
        RecExprDataView::Assign(v, x) => match eval(*x, st, fuel) {
            Err(err) => Err(err),
            Ok((Some(val), st1)) => Ok((None, RunState { env: with_last(st1.env, last_scope(st1.env).push((v, val))), ..st1 })),
            Ok((None, _)) => Err(here("Cannot assign to empty"@)),
        },
        RecExprDataView::Access(_, _) => Err(RunErrorView::Unsupported),
        RecExprDataView::List(els) => match eval_list(els, "Cannot add empty to a list"@, st, fuel) {
            Err(err) => Err(err),
            Ok((vals, st1)) => Ok((Some(ValueView::List(vals)), st1)),
        },
        RecExprDataView::ListAccess(v, idx) => match find_value(v, st.env) {
            None => Err(here(not_found_message("Variable "@, v))),
            Some(lv) => match eval(*idx, st, fuel) {
                Err(err) => Err(err),
                Ok((None, _)) => Err(here("Cannot access list with empty"@)),
                Ok((Some(iv), st1)) => match (lv, iv) {
                    (ValueView::List(l), ValueView::Number(i)) => if i < 0 || i >= l.len() {
                        Err(here(index_message(i, l.len())))
                    } else {
                        Ok((Some(l[i as int]), st1))
                    },
                    _ => Err(here("Cannot access list with types "@ + value_type_name(lv) + " and "@ + value_type_name(iv))),
                },
            },
        },
    }
}

/// Evaluates both operands, left first, and combines their values.
pub open spec fn eval_binary(
    k: BinaryKind,
    l: RecExprView<()>,
    r: RecExprView<()>,
    pos: (int, int, int),
    st: RunState,
    fuel: nat,
) -> Result<(Option<ValueView>, RunState), RunErrorView>
    decreases fuel, 1 + rec_size(l) + rec_size(r), 0nat,
{
    match eval(l, st, fuel) {
        Err(e) => Err(e),
        Ok((a, st1)) => match eval(r, st1, fuel) {
            Err(e) => Err(e),
            Ok((b, st2)) => match combine(k, a, b, pos) {
                Ok(v) => Ok((v, st2)),
                Err(e) => Err(e),
            },
        },
    }
}

/// Whether `==` holds of two values: numbers, booleans and strings compare by value
/// with values of their own kind; values of different kinds, lists and functions are
/// never equal.
pub open spec fn values_equal(l: ValueView, r: ValueView) -> bool {
    match (l, r) {
        (ValueView::Number(x), ValueView::Number(y)) => x == y,
        (ValueView::Bool(x), ValueView::Bool(y)) => x == y,
        (ValueView::Str(x), ValueView::Str(y)) => x == y,
        _ => false,
    }
}

/// `==` and `!=` never fail once both operands have a value: `==` gives whether the
/// values are equal and `!=` the opposite, with the state the right operand left.
pub proof fn lemma_equality_never_fails(
    e: RecExprView<()>,
    k: BinaryKind,
    l: RecExprView<()>,
    r: RecExprView<()>,
    st: RunState,
    fuel: nat,
    lv: ValueView,
    st1: RunState,
    rv: ValueView,
    st2: RunState,
)
    requires
        k == BinaryKind::Equals || k == BinaryKind::NotEquals,
        e.data == RecExprDataView::Binary(k, Box::new(l), Box::new(r)),
        eval(l, st, fuel) == Ok::<(Option<ValueView>, RunState), RunErrorView>((Some(lv), st1)),
        eval(r, st1, fuel) == Ok::<(Option<ValueView>, RunState), RunErrorView>((Some(rv), st2)),
    ensures
        eval(e, st, fuel) == Ok::<(Option<ValueView>, RunState), RunErrorView>((
            Some(ValueView::Bool(if k == BinaryKind::Equals { values_equal(lv, rv) } else { !values_equal(lv, rv) })),
            st2,
        )),
{
    assert(eval(e, st, fuel) == eval_binary(k, l, r, epos(e), st, fuel));
    assert(eval_binary(k, l, r, epos(e), st, fuel) == match combine(k, Some(lv), Some(rv), epos(e)) {
        Ok(v) => Ok((v, st2)),
        Err(x) => Err(x),
    });
}

/// On two numbers, each comparison gives the boolean of the integer comparison it names:
/// `<`, `>`, `<=`, `>=`, `==` and `!=`; in particular `x >= x` and `x <= x` hold and
/// `x < x` does not, and `>=` is the negation of `<`.
pub proof fn lemma_number_comparisons(x: i32, y: i32, pos: (int, int, int))
    ensures
        combine(BinaryKind::LessThan, Some(ValueView::Number(x)), Some(ValueView::Number(y)), pos)
            == Ok::<Option<ValueView>, RunErrorView>(Some(ValueView::Bool((x as int) < (y as int)))),
        combine(BinaryKind::GreaterThan, Some(ValueView::Number(x)), Some(ValueView::Number(y)), pos)
            == Ok::<Option<ValueView>, RunErrorView>(Some(ValueView::Bool((x as int) > (y as int)))),
        combine(BinaryKind::LessThanOrEqual, Some(ValueView::Number(x)), Some(ValueView::Number(y)), pos)
            == Ok::<Option<ValueView>, RunErrorView>(Some(ValueView::Bool((x as int) <= (y as int)))),
        combine(BinaryKind::GreaterThanOrEqual, Some(ValueView::Number(x)), Some(ValueView::Number(y)), pos)
            == Ok::<Option<ValueView>, RunErrorView>(Some(ValueView::Bool((x as int) >= (y as int)))),
        combine(BinaryKind::Equals, Some(ValueView::Number(x)), Some(ValueView::Number(y)), pos)
            == Ok::<Option<ValueView>, RunErrorView>(Some(ValueView::Bool(x as int == y as int))),
        combine(BinaryKind::NotEquals, Some(ValueView::Number(x)), Some(ValueView::Number(y)), pos)
            == Ok::<Option<ValueView>, RunErrorView>(Some(ValueView::Bool(x as int != y as int))),
        combine(BinaryKind::GreaterThanOrEqual, Some(ValueView::Number(x)), Some(ValueView::Number(x)), pos)
            == Ok::<Option<ValueView>, RunErrorView>(Some(ValueView::Bool(true))),
        combine(BinaryKind::LessThan, Some(ValueView::Number(x)), Some(ValueView::Number(x)), pos)
            == Ok::<Option<ValueView>, RunErrorView>(Some(ValueView::Bool(false))),
{
}

/// On two numbers, `+`, `-` and `*` give the integer sum, difference and product when it
/// fits in 32 bits, and an arithmetic fault when it does not.
pub proof fn lemma_number_arithmetic(x: i32, y: i32, pos: (int, int, int))
    ensures
        combine(BinaryKind::Add, Some(ValueView::Number(x)), Some(ValueView::Number(y)), pos) == if i32::MIN <= x + y <= i32::MAX {
            Ok::<Option<ValueView>, RunErrorView>(Some(ValueView::Number((x + y) as i32)))
        } else {
            Err(RunErrorView::Fault)
        },
        combine(BinaryKind::Subtract, Some(ValueView::Number(x)), Some(ValueView::Number(y)), pos) == if i32::MIN <= x - y <= i32::MAX {
            Ok::<Option<ValueView>, RunErrorView>(Some(ValueView::Number((x - y) as i32)))
        } else {
            Err(RunErrorView::Fault)
        },
        combine(BinaryKind::Multiply, Some(ValueView::Number(x)), Some(ValueView::Number(y)), pos) == if i32::MIN <= x * y <= i32::MAX {
            Ok::<Option<ValueView>, RunErrorView>(Some(ValueView::Number((x * y) as i32)))
        } else {
            Err(RunErrorView::Fault)
        },
{
}

proof fn lemma_floor_div(a: int, b: int)
    requires
        a >= 0,
        b > 0,
    ensures
        0 <= a - (a / b) * b < b,
        0 <= a / b <= a,
        b >= 2 ==> 2 * (a / b) <= a,
{
    assert(0 <= a - (a / b) * b < b && 0 <= a / b) by (nonlinear_arith)
        requires a >= 0, b > 0;
    assert((a / b) * b <= a) by (nonlinear_arith)
        requires a >= 0, b > 0, 0 <= a - (a / b) * b;
    assert(a / b <= (a / b) * b) by (nonlinear_arith)
        requires b > 0, 0 <= a / b;
    if b >= 2 {
        assert(2 * (a / b) <= (a / b) * b) by (nonlinear_arith)
            requires b >= 2, 0 <= a / b;
    }
}

/// On two numbers, `/` fails exactly on a zero divisor and on the one quotient that does
/// not fit (the least number divided by -1); otherwise it gives the quotient rounded
/// towards zero: what is left of `x` after taking the quotient times `y` is smaller than
/// `y` in size and has the sign of `x`.
pub proof fn lemma_number_division(x: i32, y: i32, pos: (int, int, int))
    ensures
        (combine(BinaryKind::Divide, Some(ValueView::Number(x)), Some(ValueView::Number(y)), pos) is Err)
            <==> (y == 0 || (x == i32::MIN && y == -1)),
        combine(BinaryKind::Divide, Some(ValueView::Number(x)), Some(ValueView::Number(y)), pos) matches Ok(Some(ValueView::Number(z))) ==> {
            let r = x - z * y;
            &&& (if r >= 0 { r } else { -r }) < (if y >= 0 { y as int } else { -y })
            &&& (r == 0 || (r > 0) == (x > 0))
        },
{
    let xi = x as int;
    let d = y as int;
    if d != 0 {
        if xi > 0 && d > 0 {
            lemma_floor_div(xi, d);
            let q = xi / d;
            assert(x.checked_div(y) == Some(q as i32));
        } else if xi < 0 && d < 0 {
            lemma_floor_div(-xi, -d);
            let q = (-xi) / (-d);
            assert(xi * -1 == -xi && d * -1 == -d);
            assert(xi - q * d == -((-xi) - q * (-d))) by (nonlinear_arith);
            if !(x == i32::MIN && y == -1) {
                assert(q <= i32::MAX);
                assert(x.checked_div(y) == Some(q as i32));
            }
        } else if xi < 0 {
            lemma_floor_div(-xi, d);
            let q = (-xi) / d;
            assert(xi * -1 == -xi);
            assert(xi - (q * -1) * d == -((-xi) - q * d)) by (nonlinear_arith);
            assert(x.checked_div(y) == Some((q * -1) as i32));
        } else if xi > 0 {
            lemma_floor_div(xi, -d);
            let q = xi / (-d);
            assert(d * -1 == -d);
            assert(xi - (q * -1) * d == xi - q * (-d)) by (nonlinear_arith);
            assert(x.checked_div(y) == Some((q * -1) as i32));
        } else {
            assert(x.checked_div(y) == Some(0i32));
        }
    }
}

/// `+` joins two strings and two lists, and appends any other value to a list: the
/// result starts with the left operand and continues with the right one.
pub proof fn lemma_joining(a: Seq<char>, b: Seq<char>, xs: Seq<ValueView>, ys: Seq<ValueView>, v: ValueView, pos: (int, int, int))
    requires
        !(v is List),
    ensures
        combine(BinaryKind::Add, Some(ValueView::Str(a)), Some(ValueView::Str(b)), pos) matches Ok(Some(ValueView::Str(c)))
            && c.len() == a.len() + b.len() && c.subrange(0, a.len() as int) == a && c.subrange(a.len() as int, c.len() as int) == b,
        combine(BinaryKind::Add, Some(ValueView::List(xs)), Some(ValueView::List(ys)), pos) matches Ok(Some(ValueView::List(zs)))
            && zs.len() == xs.len() + ys.len() && zs.subrange(0, xs.len() as int) == xs && zs.subrange(xs.len() as int, zs.len() as int) == ys,
        combine(BinaryKind::Add, Some(ValueView::List(xs)), Some(v), pos) matches Ok(Some(ValueView::List(zs)))
            && zs.len() == xs.len() + 1 && zs.subrange(0, xs.len() as int) == xs && zs[xs.len() as int] == v,
{
    assert((a + b).subrange(0, a.len() as int) =~= a);
    assert((a + b).subrange(a.len() as int, (a + b).len() as int) =~= b);
    assert((xs + ys).subrange(0, xs.len() as int) =~= xs);
    assert((xs + ys).subrange(xs.len() as int, (xs + ys).len() as int) =~= ys);
    assert(xs.push(v).subrange(0, xs.len() as int) =~= xs);
}

/// On two numbers, `^` fails on a negative exponent, and otherwise gives the power when
/// it fits in 32 bits and an arithmetic fault when it does not.
pub proof fn lemma_number_power(x: i32, y: i32, pos: (int, int, int))
    ensures
        y < 0 ==> combine(BinaryKind::Power, Some(ValueView::Number(x)), Some(ValueView::Number(y)), pos) is Err,
        y >= 0 ==> combine(BinaryKind::Power, Some(ValueView::Number(x)), Some(ValueView::Number(y)), pos) == if i32::MIN <= pow(x as int, y as nat) <= i32::MAX {
            Ok::<Option<ValueView>, RunErrorView>(Some(ValueView::Number(pow(x as int, y as nat) as i32)))
        } else {
            Err(RunErrorView::Fault)
        },
{
}

/// Once its operand has a value: `-` negates a number (a fault for the least one), and
/// `not` negates a boolean.
pub proof fn lemma_unary_values(e: RecExprView<()>, x: RecExprView<()>, st: RunState, fuel: nat, v: ValueView, st1: RunState)
    requires
        eval(x, st, fuel) == Ok::<(Option<ValueView>, RunState), RunErrorView>((Some(v), st1)),
    ensures
        (e.data == RecExprDataView::Minus(Box::new(x)) && v is Number) ==> eval(e, st, fuel) == if v->Number_0 == i32::MIN {
            Err::<(Option<ValueView>, RunState), RunErrorView>(RunErrorView::Fault)
        } else {
            Ok((Some(ValueView::Number((-v->Number_0) as i32)), st1))
        },
        (e.data == RecExprDataView::Not(Box::new(x)) && v is Bool) ==> eval(e, st, fuel)
            == Ok::<(Option<ValueView>, RunState), RunErrorView>((Some(ValueView::Bool(!v->Bool_0)), st1)),
{
}

/// On two booleans, `and` and `or` give the logical conjunction and disjunction.
pub proof fn lemma_boolean_logic(a: bool, b: bool, pos: (int, int, int))
    ensures
        combine(BinaryKind::And, Some(ValueView::Bool(a)), Some(ValueView::Bool(b)), pos)
            == Ok::<Option<ValueView>, RunErrorView>(Some(ValueView::Bool(a && b))),
        combine(BinaryKind::Or, Some(ValueView::Bool(a)), Some(ValueView::Bool(b)), pos)
            == Ok::<Option<ValueView>, RunErrorView>(Some(ValueView::Bool(a || b))),
{
}

/// Evaluates expressions in order; one without a value is an error with the message
/// `msg` at its place.
pub open spec fn eval_list(els: Seq<RecExprView<()>>, msg: Seq<char>, st: RunState, fuel: nat) -> Result<(Seq<ValueView>, RunState), RunErrorView>
    decreases fuel, recs_size(els), 0nat,
{
    if els.len() == 0 {
        Ok((seq![], st))
    } else {
        proof {
            lemma_recs_size(els.drop_last());
            assert(recs_size(els) == recs_size(els.drop_last()) + rec_size(els.last()));
        }
        match eval_list(els.drop_last(), msg, st, fuel) {
            Err(e) => Err(e),
            Ok((vals, st1)) => match eval(els.last(), st1, fuel) {
                Err(e) => Err(e),
                Ok((None, _)) => Err(RunErrorView::Located(msg, els.last().row, els.last().col_start, els.last().col_end)),
                Ok((Some(v), st2)) => Ok((vals.push(v), st2)),
            },
        }
    }
}

/// Calls the value `f` with argument values: a function runs its body in a new scope
/// with the parameters bound (the scope is dropped when the body ends without
/// `return`); `print` writes the values, and `println` then starts a new line. Errors
/// are at `pos`, the place of the call of `name`.
pub open spec fn call(f: ValueView, vals: Seq<ValueView>, name: Seq<char>, pos: (int, int, int), st: RunState, fuel: nat) -> Result<(Option<ValueView>, RunState), RunErrorView>
    decreases fuel, 0nat, 0nat,
{
    match f {
        ValueView::Function(_, params, body) => if params.len() != vals.len() {
            Err(RunErrorView::Located(
                "Expected "@ + nat_digits(params.len()) + " arguments, but got "@ + nat_digits(vals.len()),
                pos.0,
                pos.1,
                pos.2,
            ))
        } else if fuel == 0 {
            Err(RunErrorView::TooDeep)
        } else {
            match run_block(body, BlockMode::Function, RunState { env: st.env.push(call_scope(params, vals)), ..st }, (fuel - 1) as nat) {
                Err(e) => Err(e),
                Ok((BlockOutcome::Stop(Flow::Return(v)), st2)) => Ok((v, st2)),
                Ok((BlockOutcome::Stop(_), st2)) => Ok((None, st2)),
                Ok((BlockOutcome::Continue, st2)) => Ok((None, RunState { env: pop_env(st2.env), ..st2 })),
            }
        },
        ValueView::Standard(newline) => {
            let t = write_values(st.term, vals);
            Ok((None, RunState { term: if newline { t.push(seq![]) } else { t }, ..st }))
        },
        _ => Err(RunErrorView::Located("Expected function, found "@ + value_type_name(f) + " for variable "@ + name, pos.0, pos.1, pos.2)),
    }
}

/// Runs statements in order until one stops the block.
pub open spec fn run_block(s: Seq<BaseExprView<()>>, mode: BlockMode, st: RunState, fuel: nat) -> Result<(BlockOutcome, RunState), RunErrorView>
    decreases fuel, stmts_size(s), 0nat,
{
    if s.len() == 0 {
        Ok((BlockOutcome::Continue, st))
    } else {
        proof {
            lemma_stmts_size(s.drop_last());
            assert(stmts_size(s) == stmts_size(s.drop_last()) + stmt_size(s.last()));
        }
        match run_block(s.drop_last(), mode, st, fuel) {
            Err(e) => Err(e),
            Ok((BlockOutcome::Stop(f), st1)) => Ok((BlockOutcome::Stop(f), st1)),
            Ok((BlockOutcome::Continue, st1)) => match run_stmt(s.last(), st1, fuel) {
                Err(e) => Err(e),
                Ok((f, st2)) => match block_step(mode, f, bpos(s.last())) {
                    Ok(o) => Ok((o, st2)),
                    Err(e) => Err(e),
                },
            },
        }
    }
}

/// Runs the body of a `for` loop once for each value, in order, with the loop variable
/// set to it in the innermost scope (an error at `pos`, the place of the loop's range,
/// when that scope no longer binds it).
pub open spec fn run_loop(
    vals: Seq<ValueView>,
    var: Seq<char>,
    pos: (int, int, int),
    body: Seq<BaseExprView<()>>,
    st: RunState,
    fuel: nat,
) -> Result<(BlockOutcome, RunState), RunErrorView>
    decreases fuel, stmts_size(body) + 1, vals.len(),
{
    if vals.len() == 0 {
        Ok((BlockOutcome::Continue, st))
    } else {
        match run_loop(vals.drop_last(), var, pos, body, st, fuel) {
            Err(e) => Err(e),
            Ok((BlockOutcome::Stop(f), st1)) => Ok((BlockOutcome::Stop(f), st1)),
            Ok((BlockOutcome::Continue, st1)) => match update_value(vals.last(), var, last_scope(st1.env)) {
                None => Err(RunErrorView::Located(not_found_message("Variable "@, var), pos.0, pos.1, pos.2)),
                Some(sc) => run_block(body, BlockMode::Loop, RunState { env: with_last(st1.env, sc), ..st1 }, fuel),
            },
        }
    }
}

/// Runs an `if` or `else if` statement: the body when the condition is true, else the
/// `else` branch if there is one; a condition that is no boolean is an error at its
/// place.
pub open spec fn run_branch(
    c: RecExprView<()>,
    body: Seq<BaseExprView<()>>,
    els: Option<Box<BaseExprView<()>>>,
    st: RunState,
    fuel: nat,
) -> Result<(Flow, RunState), RunErrorView>
    decreases fuel, 1 + rec_size(c) + stmts_size(body) + match els {
        Some(x) => stmt_size(*x),
        None => 0,
    }, 0nat,
{
    match eval(c, st, fuel) {
        Err(e) => Err(e),
        Ok((Some(ValueView::Bool(true)), st1)) => match run_block(body, BlockMode::Branch, st1, fuel) {
            Err(e) => Err(e),
            Ok((o, st2)) => Ok((outcome_flow(o), st2)),
        },
        Ok((Some(ValueView::Bool(false)), st1)) => match els {
            Some(x) => run_stmt(*x, st1, fuel),
            None => Ok((Flow::Empty, st1)),
        },
        Ok((Some(other), _)) => Err(RunErrorView::Located(
            "Cannot use "@ + value_type_name(other) + " as a condition for an if statement"@,
            c.row,
            c.col_start,
            c.col_end,
        )),
        Ok((None, _)) => Err(RunErrorView::Located("Cannot use empty as a condition for an if statement"@, c.row, c.col_start, c.col_end)),
    }
}

/// Runs one statement: what it says to the statements around it, and the state
/// afterwards.
pub open spec fn run_stmt(b: BaseExprView<()>, st: RunState, fuel: nat) -> Result<(Flow, RunState), RunErrorView>
    decreases fuel, stmt_size(b), 1nat,
{
    let here = |m: Seq<char>| RunErrorView::Located(m, b.row, b.col_start, b.col_end);
    match b.data {
        BaseExprDataView::Simple(e) => match eval(e, st, fuel) {
            Err(err) => Err(err),
            Ok((_, st1)) => Ok((Flow::Empty, st1)),
        },
        BaseExprDataView::VariableAssignment(v, e) => match eval(e, st, fuel) {
            Err(err) => Err(err),
            Ok((Some(val), st1)) => Ok((Flow::Empty, assign(st1, v, val))),
            Ok((None, _)) => Err(here("Cannot assign to empty"@)),
        },
        BaseExprDataView::If(c, body, els) => run_branch(c, body, els, st, fuel),
        BaseExprDataView::ElseIf(c, body, els) => run_branch(c, body, els, st, fuel),
        BaseExprDataView::Else(body) => match run_block(body, BlockMode::Branch, st, fuel) {
            Err(err) => Err(err),
            Ok((o, st1)) => Ok((outcome_flow(o), st1)),
        },
        BaseExprDataView::PlusEquals(v, e) => match eval(e, st, fuel) {
            Err(err) => Err(err),
            Ok((None, _)) => Err(here("Cannot assign to empty"@)),
            Ok((Some(val), st1)) => match find_value(v, st1.env) {
                None => Err(here(not_found_message("Variable "@, v))),
                Some(cur) => match add_values(Some(cur), Some(val), bpos(b)) {
                    Err(err) => Err(err),
                    Ok(nv) => match update_value(nv, v, last_scope(st1.env)) {
                        None => Err(RunErrorView::Located(not_found_message("Variable "@, v), e.row, e.col_start, e.col_end)),
                        Some(sc) => Ok((Flow::Empty, RunState { env: with_last(st1.env, sc), ..st1 })),
                    },
                },
            },
        },
        BaseExprDataView::FunctionDefinition(f, a, body) => Ok((Flow::Empty, assign(st, f, ValueView::Function(f, a, body)))),
        BaseExprDataView::Return(None) => Ok((Flow::Return(None), st)),
        BaseExprDataView::Return(Some(e)) => match eval(e, st, fuel) {
            Err(err) => Err(err),
            Ok((v, st1)) => Ok((Flow::Return(v), st1)),
        },
        BaseExprDataView::Break => Ok((Flow::Break, st)),
        BaseExprDataView::ForLoop(v, u, body) => match eval(u, st, fuel) {
            Err(err) => Err(err),
            Ok((r, st1)) => {
                let vals = match r {
                    Some(ValueView::Number(n)) => Some(range_values(n)),
                    Some(ValueView::List(vs)) => Some(vs),
                    _ => None,
                };
                match vals {
                    None => Err(RunErrorView::Located(
                        match r {
                            Some(other) => "Cannot use "@ + value_type_name(other) + " as a condition for a for loop"@,
                            None => "Cannot use empty as a condition for a for loop"@,
                        },
                        u.row,
                        u.col_start,
                        u.col_end,
                    )),
                    Some(vs) => match run_loop(vs, v, epos(u), body, assign(st1, v, ValueView::Number(0)), fuel) {
                        Err(err) => Err(err),
                        Ok((o, st2)) => Ok((outcome_flow(o), st2)),
                    },
                }
            },
        },
    }
}

/// The state a program starts in: one scope binding `print` and `println`, and a
/// terminal with one empty line.
pub open spec fn start_state() -> RunState {
    RunState {
        env: seq![seq![("print"@, ValueView::Standard(false)), ("println"@, ValueView::Standard(true))]],
        term: seq![seq![]],
    }
}

/// What running a program gives: the state at its end, or the first error.
pub open spec fn run_program(s: Seq<BaseExprView<()>>) -> Result<RunState, RunErrorView> {
    match run_block(s, BlockMode::Top, start_state(), CALL_DEPTH_LIMIT as nat) {
        Ok((_, st)) => Ok(st),
        Err(e) => Err(e),
    }
}

/// The built-in functions.
#[derive(PartialEq, Eq, Structural, Clone, Copy)]
enum StandardFunction {
    Print,
    PrintLine,
}

/// A value of a running program.
enum Value {
    Number(i32),
    Bool(bool),
    String(String),
    Function { name: String, args: Vec<String>, body: Vec<BaseExpr<()>> },
    StandardFunction(StandardFunction),
    List(Vec<Value>),
}

/// A variable and its value.
struct Binding {
    name: String,
    value: Value,
}

/// The lines a program printed, the last one still open.
pub type Terminal = Vec<String>;

/// What running a statement says to the statements around it.
enum InterpretationResult {
    Return { value: Option<Value> },
    Break,
    Empty,
}

/// What running a block gives.
enum BlockExit {
    Continue,
    Stop(InterpretationResult),
}

spec fn value_view(v: Value) -> ValueView
    decreases v,
{
    match v {
        Value::Number(n) => ValueView::Number(n),
        Value::Bool(b) => ValueView::Bool(b),
        Value::String(s) => ValueView::Str(s@),
        Value::Function { name, args, body } => ValueView::Function(name@, strings_view(args@), bases_view(body@)),
        Value::StandardFunction(f) => ValueView::Standard(f == StandardFunction::PrintLine),
        Value::List(vs) => ValueView::List(values_view(vs@)),
    }
}

spec fn values_view(s: Seq<Value>) -> Seq<ValueView>
    decreases s,
{
    if s.len() == 0 {
        seq![]
    } else {
        values_view(s.drop_last()).push(value_view(s.last()))
    }
}

proof fn lemma_values_view(s: Seq<Value>)
    ensures
        values_view(s).len() == s.len(),
        forall|i: int| 0 <= i < s.len() ==> #[trigger] values_view(s)[i] == value_view(s[i]),
    decreases s.len(),
{
    if s.len() > 0 {
        lemma_values_view(s.drop_last());
        assert forall|i: int| 0 <= i < s.len() implies #[trigger] values_view(s)[i] == value_view(s[i]) by {
            if i < s.len() - 1 {
                assert(s.drop_last()[i] == s[i]);
            }
        }
    }
}

proof fn lemma_values_view_eq(a: Seq<Value>, b: Seq<Value>)
    requires
        a.len() == b.len(),
        forall|i: int| 0 <= i < a.len() ==> value_view(#[trigger] a[i]) == value_view(b[i]),
    ensures
        values_view(a) == values_view(b),
{
    lemma_values_view(a);
    lemma_values_view(b);
    assert(values_view(a) =~= values_view(b));
}

spec fn opt_value_view(o: Option<Value>) -> Option<ValueView> {
    match o {
        Some(v) => Some(value_view(v)),
        None => None,
    }
}

spec fn binding_view(b: Binding) -> (Seq<char>, ValueView) {
    (b.name@, value_view(b.value))
}

spec fn scope_view(s: Seq<Binding>) -> Seq<(Seq<char>, ValueView)> {
    s.map_values(|b: Binding| binding_view(b))
}

spec fn env_view(env: Seq<Vec<Binding>>) -> Seq<Seq<(Seq<char>, ValueView)>> {
    env.map_values(|v: Vec<Binding>| scope_view(v@))
}

/// The lines of a terminal.
pub open spec fn term_view(term: Seq<String>) -> Seq<Seq<char>> {
    term.map_values(|s: String| s@)
}

spec fn state_of(env: Seq<Vec<Binding>>, term: Seq<String>) -> RunState {
    RunState { env: env_view(env), term: term_view(term) }
}

spec fn flow_view(r: InterpretationResult) -> Flow {
    match r {
        InterpretationResult::Return { value } => Flow::Return(opt_value_view(value)),
        InterpretationResult::Break => Flow::Break,
        InterpretationResult::Empty => Flow::Empty,
    }
}

spec fn exit_view(x: BlockExit) -> BlockOutcome {
    match x {
        BlockExit::Continue => BlockOutcome::Continue,
        BlockExit::Stop(r) => BlockOutcome::Stop(flow_view(r)),
    }
}

/// A copy of a value.
fn copy_value(v: &Value) -> (r: Value)
    ensures
        value_view(r) == value_view(*v),
    decreases v, 1nat,
{
    match v {
        Value::Number(n) => Value::Number(*n),
        Value::Bool(b) => Value::Bool(*b),
        Value::String(s) => Value::String(s.clone()),
        Value::Function { name, args, body } => Value::Function { name: name.clone(), args: copy_strings(args), body: copy_base_exprs(body) },
        Value::StandardFunction(f) => Value::StandardFunction(*f),
        Value::List(vs) => Value::List(copy_values(vs)),
    }
}

/// A copy of a list of values.
fn copy_values(v: &Vec<Value>) -> (r: Vec<Value>)
    ensures
        values_view(r@) == values_view(v@),
    decreases v, 0nat,
{
    let mut r: Vec<Value> = Vec::new();
    let mut i: usize = 0;
    while i < v.len()
        invariant
            i <= v@.len(),
            r@.len() == i,
            forall|j: int| 0 <= j < i ==> value_view(#[trigger] r@[j]) == value_view(v@[j]),
        decreases v@.len() - i,
    {
        proof { assert(decreases_to!(v => v@[i as int])); }
        r.push(copy_value(&v[i]));
        i = i + 1;
    }
    proof { lemma_values_view_eq(r@, v@); }
    r
}

/// How the kind of a value is named in messages.
pub open spec fn value_type_name(v: ValueView) -> Seq<char> {
    match v {
        ValueView::Number(_) => "integer"@,
        ValueView::Bool(_) => "boolean"@,
        ValueView::Str(_) => "string"@,
        ValueView::Function(..) => "function"@,
        ValueView::Standard(_) => "standard function"@,
        ValueView::List(_) => "list"@,
    }
}

/// How the kind of a value is named in messages.
fn value_type_to_string(v: &Value) -> (r: String)
    ensures
        r@ == value_type_name(value_view(*v)),
{
    match v {
        Value::Number(_) => String::from_str("integer"),
        Value::Bool(_) => String::from_str("boolean"),
        Value::String(_) => String::from_str("string"),
        Value::Function { .. } => String::from_str("function"),
        Value::StandardFunction(_) => String::from_str("standard function"),
        Value::List(_) => String::from_str("list"),
    }
}

/// How a value is printed.
fn value_to_string(v: &Value) -> (r: String)
    ensures
        r@ == value_text(value_view(*v)),
    decreases v, 1nat,
{
    match v {
        Value::Number(n) => i32_to_string(*n),
        Value::Bool(b) => if *b { String::from_str("true") } else { String::from_str("false") },
        Value::String(s) => s.clone(),
        Value::Function { name, .. } => concat("function ", name.as_str()),
        Value::StandardFunction(_) => String::from_str("standard function"),
        Value::List(vs) => {
            let inner = values_to_string(vs);
            let a = concat("[", inner.as_str());
            concat(a.as_str(), "]")
        },
    }
}

/// The printed values, separated by commas.
fn values_to_string(vs: &Vec<Value>) -> (r: String)
    ensures
        r@ == values_text(values_view(vs@)),
    decreases vs, 0nat,
{
    proof { lemma_values_view(vs@); }
    let mut r = String::new();
    let mut i: usize = 0;
    while i < vs.len()
        invariant
            i <= vs@.len(),
            values_view(vs@).len() == vs@.len(),
            forall|j: int| 0 <= j < vs@.len() ==> #[trigger] values_view(vs@)[j] == value_view(vs@[j]),
            r@ == values_text(values_view(vs@).subrange(0, i as int)),
        decreases vs@.len() - i,
    {
        proof { assert(decreases_to!(vs => vs@[i as int])); }
        let t = value_to_string(&vs[i]);
        let ghost w = values_view(vs@).subrange(0, i + 1);
        assert(w.drop_last() =~= values_view(vs@).subrange(0, i as int));
        assert(w.last() == value_view(vs@[i as int]));
        if i == 0 {
            assert(w =~= seq![value_view(vs@[0])]);
            r = t;
        } else {
            let a = concat(r.as_str(), ", ");
            r = concat(a.as_str(), t.as_str());
        }
        i = i + 1;
    }
    assert(values_view(vs@).subrange(0, vs@.len() as int) =~= values_view(vs@));
    r
}

proof fn lemma_vfirst(name: Seq<char>, scope: Seq<(Seq<char>, ValueView)>, i: int)
    ensures
        vfirst(name, scope, i) matches Some(j) ==> i <= j < scope.len() && scope[j].0 == name,
    decreases scope.len() - i,
{
    if 0 <= i < scope.len() && scope[i].0 != name {
        lemma_vfirst(name, scope, i + 1);
    }
}

/// The index of the first binding of `name` in a scope.
fn vfirst_index(name: &String, scope: &Vec<Binding>) -> (r: Option<usize>)
    ensures
        r matches Some(i) ==> vfirst(name@, scope_view(scope@), 0) == Some(i as int) && i < scope@.len() && scope@[i as int].name@ == name@,
        r is None ==> vfirst(name@, scope_view(scope@), 0) is None,
{
    proof { lemma_vfirst(name@, scope_view(scope@), 0); }
    let ghost sv = scope_view(scope@);
    let mut i: usize = 0;
    while i < scope.len()
        invariant
            sv == scope_view(scope@),
            i <= scope@.len(),
            vfirst(name@, sv, 0) == vfirst(name@, sv, i as int),
        decreases scope@.len() - i,
    {
        if scope[i].name == *name {
            return Some(i);
        }
        i = i + 1;
    }
    None
}

/// The value of `name` in the innermost scope that binds it.
fn find_in_env(name: &String, env: &Vec<Vec<Binding>>) -> (r: Option<Value>)
    ensures
        opt_value_view(r) == find_value(name@, env_view(env@)),
{
    let ghost ev = env_view(env@);
    let mut i: usize = env.len();
    assert(ev.subrange(0, i as int) =~= ev);
    while i > 0
        invariant
            ev == env_view(env@),
            i <= env@.len(),
            find_value(name@, ev) == find_value(name@, ev.subrange(0, i as int)),
        decreases i,
    {
        let scope = &env[i - 1];
        assert(ev.subrange(0, i as int).last() == scope_view(scope@));
        assert(ev.subrange(0, i as int).drop_last() =~= ev.subrange(0, i - 1));
        match vfirst_index(name, scope) {
            Some(j) => {
                return Some(copy_value(&scope[j].value));
            },
            None => {},
        }
        i = i - 1;
    }
    None
}

/// Sets the first binding of `name` in the scope to `value`; says whether there was one.
fn update_in_scope(value: &Value, name: &String, scope: &mut Vec<Binding>) -> (r: bool)
    ensures
        match update_value(value_view(*value), name@, scope_view(old(scope)@)) {
            Some(sc) => r && scope_view(final(scope)@) == sc,
            None => !r && final(scope)@ == old(scope)@,
        },
{
    match vfirst_index(name, scope) {
        Some(i) => {
            scope.set(i, Binding { name: name.clone(), value: copy_value(value) });
            assert(scope_view(scope@) =~= scope_view(old(scope)@).update(i as int, (name@, value_view(*value))));
            true
        },
        None => false,
    }
}

/// The innermost scope, taken out of the environment (an empty one when there is none).
fn take_last(env: &mut Vec<Vec<Binding>>) -> (r: Vec<Binding>)
    ensures
        scope_view(r@) == last_scope(env_view(old(env)@)),
        env_view(final(env)@) == pop_env(env_view(old(env)@)),
        final(env)@.len() == if old(env)@.len() == 0 { 0 } else { old(env)@.len() - 1 },
{
    let ghost before = env@;
    match env.pop() {
        Some(s) => {
            assert(env_view(env@) =~= env_view(before).drop_last());
            s
        },
        None => {
            assert(scope_view(Seq::<Binding>::empty()) =~= Seq::<(Seq<char>, ValueView)>::empty());
            Vec::new()
        },
    }
}

/// Puts back the innermost scope taken out by `take_last`.
fn put_last(env: &mut Vec<Vec<Binding>>, scope: Vec<Binding>, Ghost(orig): Ghost<Seq<Seq<(Seq<char>, ValueView)>>>)
    requires
        env_view(old(env)@) == pop_env(orig),
        old(env)@.len() == if orig.len() == 0 { 0 } else { orig.len() - 1 },
    ensures
        env_view(final(env)@) == with_last(orig, scope_view(scope@)),
{
    let ghost before = env@;
    env.push(scope);
    proof {
        if orig.len() == 0 {
            assert(env_view(env@) =~= seq![scope_view(scope@)]);
        } else {
            assert forall|j: int| 0 <= j < orig.len() implies #[trigger] env_view(env@)[j] == orig.update(orig.len() - 1, scope_view(scope@))[j] by {
                if j < orig.len() - 1 {
                    assert(env_view(env@)[j] == scope_view(before[j]@));
                    assert(env_view(before)[j] == scope_view(before[j]@));
                    assert(orig.drop_last()[j] == orig[j]);
                }
            }
            assert(env_view(env@) =~= orig.update(orig.len() - 1, scope_view(scope@)));
        }
    }
}

/// Sets `name` to `value` in the innermost scope.
fn assign_exec(env: &mut Vec<Vec<Binding>>, name: &String, value: &Value)
    ensures
        env_view(final(env)@) == assign(RunState { env: env_view(old(env)@), term: seq![] }, name@, value_view(*value)).env,
{
    let ghost orig = env_view(env@);
    let mut scope = take_last(env);
    if !update_in_scope(value, name, &mut scope) {
        scope.push(Binding { name: name.clone(), value: copy_value(value) });
        assert(scope_view(scope@) =~= last_scope(orig).push((name@, value_view(*value))));
    }
    put_last(env, scope, Ghost(orig));
}

/// The terminal with `text` written at the end of its last line.
fn write_exec(term: &mut Vec<String>, text: &String)
    ensures
        term_view(final(term)@) == write(term_view(old(term)@), text@),
{
    let ghost before = term@;
    match term.pop() {
        Some(line) => {
            let joined = concat(line.as_str(), text.as_str());
            term.push(joined);
            assert(term_view(term@) =~= term_view(before).update(before.len() - 1, term_view(before).last() + text@));
        },
        None => {
            term.push(text.clone());
            assert(term_view(term@) =~= seq![text@]);
        },
    }
}

/// `a` to the power `b`, if it fits in 32 bits.
fn checked_power(a: i32, b: i32) -> (r: Option<i32>)
    requires
        b >= 0,
    ensures
        r == power(a, b),
{
    if a == 0 {
        proof { lemma_pow_small(a as int, b as nat); }
        return if b == 0 { Some(1) } else { Some(0) };
    }
    if a == 1 {
        proof { lemma_pow_small(a as int, b as nat); }
        return Some(1);
    }
    if a == -1 {
        proof { lemma_pow_small(a as int, b as nat); }
        return if b % 2 == 0 { Some(1) } else { Some(-1) };
    }
    let mut acc: i32 = 1;
    let mut k: i32 = 0;
    proof { lemma_pow_step(a as int, 0); }
    while k < b
        invariant
            0 <= k <= b,
            a < -1 || a > 1,
            acc as int == pow(a as int, k as nat),
        decreases b - k,
    {
        proof { lemma_pow_step(a as int, k as nat); }
        match acc.checked_mul(a) {
            Some(x) => {
                acc = x;
                k = k + 1;
            },
            None => {
                proof {
                    assert(a as int * a as int >= 4) by (nonlinear_arith)
                        requires
                            a < -1 || a > 1;
                    lemma_overflow_persists(a as int, (k + 1) as nat, b as nat);
                }
                return None;
            },
        }
    }
    Some(acc)
}

/// The first power is 1, and each next one is the base times the one before.
proof fn lemma_pow_step(a: int, n: nat)
    ensures
        pow(a, 0) == 1,
        pow(a, n + 1) == a * pow(a, n),
{
    reveal(pow);
}

/// Powers of 0, 1 and -1.
proof fn lemma_pow_small(a: int, n: nat)
    requires
        -1 <= a <= 1,
    ensures
        a == 0 ==> pow(a, n) == if n == 0 { 1int } else { 0int },
        a == 1 ==> pow(a, n) == 1,
        a == -1 ==> pow(a, n) == if n % 2 == 0 { 1int } else { -1int },
    decreases n,
{
    lemma_pow_step(a, 0);
    if n > 0 {
        lemma_pow_small(a, (n - 1) as nat);
        lemma_pow_step(a, (n - 1) as nat);
    }
}

/// For a base of magnitude at least two, powers grow in magnitude.
proof fn lemma_pow_sq_grows(a: int, m: nat, n: nat)
    requires
        a * a >= 4,
        m <= n,
    ensures
        pow(a, n) * pow(a, n) >= pow(a, m) * pow(a, m),
    decreases n - m,
{
    if m < n {
        lemma_pow_sq_grows(a, m, (n - 1) as nat);
        lemma_pow_step(a, (n - 1) as nat);
        let p = pow(a, (n - 1) as nat);
        assert((a * p) * (a * p) >= p * p) by (nonlinear_arith)
            requires
                a * a >= 4;
    }
}

/// Once a power of a base of magnitude at least two leaves the 32-bit range, every
/// higher power is out of it too.
proof fn lemma_overflow_persists(a: int, k: nat, b: nat)
    requires
        a * a >= 4,
        k <= b,
        pow(a, k) > i32::MAX || pow(a, k) < i32::MIN,
    ensures
        pow(a, b) > i32::MAX || pow(a, b) < i32::MIN,
{
    if k < b {
        lemma_pow_step(a, k);
        let p = pow(a, k);
        let q = pow(a, k + 1);
        assert(q * q >= 0x1_0000_0000_0000_0000) by (nonlinear_arith)
            requires
                q == a * p,
                a * a >= 4,
                p > 0x7fff_ffff || p < -0x8000_0000;
        lemma_pow_sq_grows(a, k + 1, b);
        let r = pow(a, b);
        assert(r > i32::MAX || r < i32::MIN) by (nonlinear_arith)
            requires
                r * r >= 0x1_0000_0000_0000_0000;
    }
}

fn fault_error() -> (r: Error)
    ensures
        run_error_matches(r, RunErrorView::Fault),
{
    Error::SimpleError { message: String::from_str("Arithmetic overflow or division by zero") }
}

fn located(message: String, row: usize, col_start: usize, col_end: usize) -> (r: Error)
    ensures
        r.is_located(message@, row as int, col_start as int, col_end as int),
{
    Error::LocationError { message, row, col_start, col_end }
}

/// The message for an operator applied to values of the wrong kinds, or to no value.
pub open spec fn operator_message_text(op: Seq<char>, a: Option<ValueView>, b: Option<ValueView>) -> Seq<char> {
    match (a, b) {
        (Some(x), Some(y)) => "Cannot apply operator "@ + op + " on types "@ + value_type_name(x) + " and "@ + value_type_name(y),
        _ => "Cannot apply operator "@ + op + " on empty"@,
    }
}

/// The message for an operator applied to values of the wrong kinds, or to no value.
fn operator_message(op: &str, a: &Option<Value>, b: &Option<Value>) -> (r: String)
    ensures
        r@ == operator_message_text(
            op@,
            match a { Some(x) => Some(value_view(*x)), None => None },
            match b { Some(y) => Some(value_view(*y)), None => None },
        ),
{
    match (a, b) {
        (Some(x), Some(y)) => {
            let m1 = concat("Cannot apply operator ", op);
            let m2 = concat(m1.as_str(), " on types ");
            let tx = value_type_to_string(x);
            let m3 = concat(m2.as_str(), tx.as_str());
            let m4 = concat(m3.as_str(), " and ");
            let ty = value_type_to_string(y);
            concat(m4.as_str(), ty.as_str())
        },
        _ => {
            let m1 = concat("Cannot apply operator ", op);
            concat(m1.as_str(), " on empty")
        },
    }
}

/// `a + b` on values.
fn add_values_exec(a: Option<Value>, b: Option<Value>, row: usize, col_start: usize, col_end: usize) -> (r: Result<Value, Error>)
    ensures
        match add_values(opt_value_view(a), opt_value_view(b), (row as int, col_start as int, col_end as int)) {
            Ok(v) => r matches Ok(x) && value_view(x) == v,
            Err(e) => r matches Err(err) && run_error_matches(err, e),
        },
{
    match (a, b) {
        (Some(Value::Number(x)), Some(Value::Number(y))) => match x.checked_add(y) {
            Some(z) => Ok(Value::Number(z)),
            None => Err(fault_error()),
        },
        (Some(Value::String(x)), Some(Value::String(y))) => Ok(Value::String(concat(x.as_str(), y.as_str()))),
        (Some(Value::List(x)), Some(Value::List(y))) => {
            let mut r = x;
            let ghost xv = values_view(r@);
            let mut i: usize = 0;
            proof { lemma_values_view(y@); }
            assert(xv + values_view(y@).subrange(0, 0) =~= xv);
            while i < y.len()
                invariant
                    i <= y@.len(),
                    values_view(y@).len() == y@.len(),
                    forall|j: int| 0 <= j < y@.len() ==> #[trigger] values_view(y@)[j] == value_view(y@[j]),
                    values_view(r@) == xv + values_view(y@).subrange(0, i as int),
                decreases y@.len() - i,
            {
                let ghost before = r@;
                r.push(copy_value(&y[i]));
                assert(r@.drop_last() =~= before);
                assert(xv + values_view(y@).subrange(0, i + 1) =~= (xv + values_view(y@).subrange(0, i as int)).push(value_view(y@[i as int])));
                i = i + 1;
            }
            assert(values_view(y@).subrange(0, y@.len() as int) =~= values_view(y@));
            Ok(Value::List(r))
        },
        (Some(Value::List(x)), Some(y)) => {
            let mut r = x;
            let ghost before = r@;
            r.push(y);
            assert(r@.drop_last() =~= before);
            Ok(Value::List(r))
        },
        (a, b) => {
            let m = operator_message("+", &a, &b);
            Err(located(m, row, col_start, col_end))
        },
    }
}

/// The value of a binary operation on the values of its operands.
fn combine_values(k: BinaryKind, a: Option<Value>, b: Option<Value>, row: usize, col_start: usize, col_end: usize) -> (r: Result<Option<Value>, Error>)
    ensures
        match combine(k, opt_value_view(a), opt_value_view(b), (row as int, col_start as int, col_end as int)) {
            Ok(v) => r matches Ok(x) && opt_value_view(x) == v,
            Err(e) => r matches Err(err) && run_error_matches(err, e),
        },
{
    if k == BinaryKind::Add {
        return match add_values_exec(a, b, row, col_start, col_end) {
            Ok(v) => Ok(Some(v)),
            Err(e) => Err(e),
        };
    }
    let op = match k {
        BinaryKind::Subtract => "-",
        BinaryKind::Multiply => "*",
        BinaryKind::Divide => "/",
        BinaryKind::Power => "^",
        BinaryKind::GreaterThan => ">",
        BinaryKind::GreaterThanOrEqual => ">=",
        BinaryKind::LessThan => "<",
        BinaryKind::LessThanOrEqual => "<=",
        BinaryKind::And => "AND",
        BinaryKind::Or => "OR",
        BinaryKind::Equals => "==",
        BinaryKind::NotEquals => "!=",
        BinaryKind::Add => "+",
    };
    match (&a, &b) {
        (Some(Value::Number(x)), Some(Value::Number(y))) => {
            let x = *x;
            let y = *y;
            let arith = match k {
                BinaryKind::Subtract => Some(x.checked_sub(y)),
                BinaryKind::Multiply => Some(x.checked_mul(y)),
                BinaryKind::Divide => Some(x.checked_div(y)),
                BinaryKind::Power => if y < 0 {
                    return Err(located(String::from_str("Cannot raise to a negative power"), row, col_start, col_end));
                } else {
                    Some(checked_power(x, y))
                },
                _ => None,
            };
            match arith {
                Some(Some(z)) => return Ok(Some(Value::Number(z))),
                Some(None) => return Err(fault_error()),
                None => {},
            }
            match k {
                BinaryKind::GreaterThan => return Ok(Some(Value::Bool(x > y))),
                BinaryKind::GreaterThanOrEqual => return Ok(Some(Value::Bool(x >= y))),
                BinaryKind::LessThan => return Ok(Some(Value::Bool(x < y))),
                BinaryKind::LessThanOrEqual => return Ok(Some(Value::Bool(x <= y))),
                BinaryKind::Equals => return Ok(Some(Value::Bool(x == y))),
                BinaryKind::NotEquals => return Ok(Some(Value::Bool(x != y))),
                _ => {},
            }
        },
        (Some(Value::Bool(x)), Some(Value::Bool(y))) => {
            let x = *x;
            let y = *y;
            match k {
                BinaryKind::And => return Ok(Some(Value::Bool(x && y))),
                BinaryKind::Or => return Ok(Some(Value::Bool(x || y))),
                BinaryKind::Equals => return Ok(Some(Value::Bool(x == y))),
                BinaryKind::NotEquals => return Ok(Some(Value::Bool(x != y))),
                _ => {},
            }
        },
        (Some(Value::String(x)), Some(Value::String(y))) => {
            match k {
                BinaryKind::Equals => return Ok(Some(Value::Bool(*x == *y))),
                BinaryKind::NotEquals => return Ok(Some(Value::Bool(*x != *y))),
                _ => {},
            }
        },
        _ => {},
    }
    if a.is_some() && b.is_some() {
        match k {
            BinaryKind::Equals => return Ok(Some(Value::Bool(false))),
            BinaryKind::NotEquals => return Ok(Some(Value::Bool(true))),
            _ => {},
        }
    }
    let m = operator_message(op, &a, &b);
    Err(located(m, row, col_start, col_end))
}

/// Once running a prefix of a block fails or stops the block, running the whole block
/// gives the same.
proof fn lemma_block_prefix(s: Seq<BaseExprView<()>>, mode: BlockMode, st: RunState, fuel: nat, k: int)
    requires
        0 <= k <= s.len(),
        run_block(s.subrange(0, k), mode, st, fuel) matches Err(_) || run_block(s.subrange(0, k), mode, st, fuel) matches Ok((BlockOutcome::Stop(_), _)),
    ensures
        run_block(s, mode, st, fuel) == run_block(s.subrange(0, k), mode, st, fuel),
    decreases s.len() - k,
{
    if k < s.len() {
        assert(s.drop_last().subrange(0, k) =~= s.subrange(0, k));
        lemma_block_prefix(s.drop_last(), mode, st, fuel, k);
    } else {
        assert(s.subrange(0, k) =~= s);
    }
}

/// Once running the loop body for a prefix of the values fails or stops the loop, running
/// it for all of them gives the same.
proof fn lemma_loop_prefix(
    vals: Seq<ValueView>,
    var: Seq<char>,
    pos: (int, int, int),
    body: Seq<BaseExprView<()>>,
    st: RunState,
    fuel: nat,
    k: int,
)
    requires
        0 <= k <= vals.len(),
        run_loop(vals.subrange(0, k), var, pos, body, st, fuel) matches Err(_)
            || run_loop(vals.subrange(0, k), var, pos, body, st, fuel) matches Ok((BlockOutcome::Stop(_), _)),
    ensures
        run_loop(vals, var, pos, body, st, fuel) == run_loop(vals.subrange(0, k), var, pos, body, st, fuel),
    decreases vals.len() - k,
{
    if k < vals.len() {
        assert(vals.drop_last().subrange(0, k) =~= vals.subrange(0, k));
        lemma_loop_prefix(vals.drop_last(), var, pos, body, st, fuel, k);
    } else {
        assert(vals.subrange(0, k) =~= vals);
    }
}

/// Once evaluating a prefix of a list of expressions fails, evaluating the whole list
/// fails the same way.
proof fn lemma_eval_list_prefix(els: Seq<RecExprView<()>>, msg: Seq<char>, st: RunState, fuel: nat, k: int)
    requires
        0 <= k <= els.len(),
        eval_list(els.subrange(0, k), msg, st, fuel) is Err,
    ensures
        eval_list(els, msg, st, fuel) == eval_list(els.subrange(0, k), msg, st, fuel),
    decreases els.len() - k,
{
    if k < els.len() {
        assert(els.drop_last().subrange(0, k) =~= els.subrange(0, k));
        lemma_eval_list_prefix(els.drop_last(), msg, st, fuel, k);
    } else {
        assert(els.subrange(0, k) =~= els);
    }
}

/// What a block does with what one of its statements said.
fn block_step_exec(mode: BlockMode, f: InterpretationResult, row: usize, col_start: usize, col_end: usize) -> (r: Result<BlockExit, Error>)
    ensures
        match block_step(mode, flow_view(f), (row as int, col_start as int, col_end as int)) {
            Ok(o) => r matches Ok(x) && exit_view(x) == o,
            Err(e) => r matches Err(err) && run_error_matches(err, e),
        },
{
    if mode == BlockMode::Top {
        return Ok(BlockExit::Continue);
    }
    match f {
        InterpretationResult::Empty => Ok(BlockExit::Continue),
        InterpretationResult::Return { value } => Ok(BlockExit::Stop(InterpretationResult::Return { value })),
        InterpretationResult::Break => {
            if mode == BlockMode::Branch {
                Ok(BlockExit::Stop(InterpretationResult::Empty))
            } else if mode == BlockMode::Loop {
                Ok(BlockExit::Stop(InterpretationResult::Break))
            } else {
                Err(located(String::from_str("Cannot break out of a function"), row, col_start, col_end))
            }
        },
    }
}

fn exit_result(x: BlockExit) -> (r: InterpretationResult)
    ensures
        flow_view(r) == outcome_flow(exit_view(x)),
{
    match x {
        BlockExit::Stop(f) => f,
        BlockExit::Continue => InterpretationResult::Empty,
    }
}

/// Evaluates an expression.
#[verifier::spinoff_prover]
#[verifier::rlimit(50)]
fn interpret_expr(expr: &RecExpr<()>, env: &mut Vec<Vec<Binding>>, terminal: &mut Vec<String>, fuel: u64) -> (r: Result<Option<Value>, Error>)
    ensures
        match eval(rec_view(*expr), state_of(old(env)@, old(terminal)@), fuel as nat) {
            Ok((v, st)) => r matches Ok(x) && opt_value_view(x) == v && state_of(final(env)@, final(terminal)@) == st,
            Err(e) => r matches Err(err) && run_error_matches(err, e),
        },
    decreases fuel, rec_size(rec_view(*expr)), 1nat,
{
    match &expr.data {
        RecExprData::Variable { name } => match find_in_env(name, env) {
            Some(v) => Ok(Some(v)),
            None => {
                let m = concat("Variable not found: ", name.as_str());
                Err(located(m, expr.row, expr.col_start, expr.col_end))
            },
        },
        RecExprData::Number { number } => Ok(Some(Value::Number(*number))),
        RecExprData::Boolean { value } => Ok(Some(Value::Bool(*value))),
        RecExprData::String { value } => Ok(Some(Value::String(value.clone()))),
        RecExprData::Add { left, right } => interpret_binary(BinaryKind::Add, &**left, &**right, expr.row, expr.col_start, expr.col_end, env, terminal, fuel),
        RecExprData::Subtract { left, right } => interpret_binary(BinaryKind::Subtract, &**left, &**right, expr.row, expr.col_start, expr.col_end, env, terminal, fuel),
        RecExprData::Multiply { left, right } => interpret_binary(BinaryKind::Multiply, &**left, &**right, expr.row, expr.col_start, expr.col_end, env, terminal, fuel),
        RecExprData::Divide { left, right } => interpret_binary(BinaryKind::Divide, &**left, &**right, expr.row, expr.col_start, expr.col_end, env, terminal, fuel),
        RecExprData::Power { left, right } => interpret_binary(BinaryKind::Power, &**left, &**right, expr.row, expr.col_start, expr.col_end, env, terminal, fuel),
        RecExprData::Or { left, right } => interpret_binary(BinaryKind::Or, &**left, &**right, expr.row, expr.col_start, expr.col_end, env, terminal, fuel),
        RecExprData::And { left, right } => interpret_binary(BinaryKind::And, &**left, &**right, expr.row, expr.col_start, expr.col_end, env, terminal, fuel),
        RecExprData::Equals { left, right } => interpret_binary(BinaryKind::Equals, &**left, &**right, expr.row, expr.col_start, expr.col_end, env, terminal, fuel),
        RecExprData::NotEquals { left, right } => interpret_binary(BinaryKind::NotEquals, &**left, &**right, expr.row, expr.col_start, expr.col_end, env, terminal, fuel),
        RecExprData::GreaterThan { left, right } => interpret_binary(BinaryKind::GreaterThan, &**left, &**right, expr.row, expr.col_start, expr.col_end, env, terminal, fuel),
        RecExprData::LessThan { left, right } => interpret_binary(BinaryKind::LessThan, &**left, &**right, expr.row, expr.col_start, expr.col_end, env, terminal, fuel),
        RecExprData::GreaterThanOrEqual { left, right } => interpret_binary(BinaryKind::GreaterThanOrEqual, &**left, &**right, expr.row, expr.col_start, expr.col_end, env, terminal, fuel),
        RecExprData::LessThanOrEqual { left, right } => interpret_binary(BinaryKind::LessThanOrEqual, &**left, &**right, expr.row, expr.col_start, expr.col_end, env, terminal, fuel),
        RecExprData::Minus { right } => {
            let v = match interpret_expr(&**right, env, terminal, fuel) {
                Ok(v) => v,
                Err(e) => return Err(e),
            };
            match v {
                Some(Value::Number(n)) => if n == i32::MIN {
                    Err(fault_error())
                } else {
                    Ok(Some(Value::Number(-n)))
                },
                Some(other) => {
                    let t = value_type_to_string(&other);
                    let m = concat("Cannot apply operator - on type ", t.as_str());
                    Err(located(m, expr.row, expr.col_start, expr.col_end))
                },
                None => Err(located(String::from_str("Cannot apply operator - on empty"), expr.row, expr.col_start, expr.col_end)),
            }
        },
        RecExprData::Not { right } => {
            let v = match interpret_expr(&**right, env, terminal, fuel) {
                Ok(v) => v,
                Err(e) => return Err(e),
            };
            match v {
                Some(Value::Bool(b)) => Ok(Some(Value::Bool(!b))),
                Some(other) => {
                    let t = value_type_to_string(&other);
                    let m = concat("Cannot apply operator NOT on type ", t.as_str());
                    Err(located(m, expr.row, expr.col_start, expr.col_end))
                },
                None => Err(located(String::from_str("Cannot apply operator NOT on empty"), expr.row, expr.col_start, expr.col_end)),
            }
        },
        RecExprData::FunctionCall { function_name, args } => {
            let f = match find_in_env(function_name, env) {
                Some(f) => f,
                None => {
                    let a = concat("Function ", function_name.as_str());
                    let m = concat(a.as_str(), " not found");
                    return Err(located(m, expr.row, expr.col_start, expr.col_end));
                },
            };
            let vals = match interpret_list(args, "Cannot pass Empty to a function", env, terminal, fuel) {
                Ok(v) => v,
                Err(e) => return Err(e),
            };
            call_value(f, vals, function_name, expr.row, expr.col_start, expr.col_end, env, terminal, fuel)
        },
        RecExprData::Assign { variable_name, right } => {
            let v = match interpret_expr(&**right, env, terminal, fuel) {
                Ok(v) => v,
                Err(e) => return Err(e),
            };
            match v {
                Some(value) => {
                    let ghost orig = env_view(env@);
                    let mut scope = take_last(env);
                    let ghost sb = scope@;
                    scope.push(Binding { name: variable_name.clone(), value });
                    assert(scope@.drop_last() =~= sb);
                    assert(scope_view(scope@) =~= scope_view(sb).push((variable_name@, value_view(value))));
                    put_last(env, scope, Ghost(orig));
                    Ok(None)
                },
                None => Err(located(String::from_str("Cannot assign to empty"), expr.row, expr.col_start, expr.col_end)),
            }
        },
        RecExprData::Access { .. } => Err(Error::SimpleError { message: String::from_str("not implemented") }),
        RecExprData::List { elements } => {
            match interpret_list(elements, "Cannot add empty to a list", env, terminal, fuel) {
                Ok(vals) => Ok(Some(Value::List(vals))),
                Err(e) => Err(e),
            }
        },
        RecExprData::ListAccess { variable, index } => {
            let lv = match find_in_env(variable, env) {
                Some(v) => v,
                None => {
                    let a = concat("Variable ", variable.as_str());
                    let m = concat(a.as_str(), " not found");
                    return Err(located(m, expr.row, expr.col_start, expr.col_end));
                },
            };
            let iv = match interpret_expr(&**index, env, terminal, fuel) {
                Ok(Some(v)) => v,
                Ok(None) => return Err(located(String::from_str("Cannot access list with empty"), expr.row, expr.col_start, expr.col_end)),
                Err(e) => return Err(e),
            };
            match (&lv, &iv) {
                (Value::List(l), Value::Number(i)) => {
                    proof { lemma_values_view(l@); }
                    let index = *i as usize;
                    if *i < 0 || index >= l.len() {
                        let a = usize_text(index);
                        let b = usize_text(l.len());
                        let m1 = concat("Index ", a.as_str());
                        let m2 = concat(m1.as_str(), " out of bounds for list of length ");
                        let m = concat(m2.as_str(), b.as_str());
                        return Err(located(m, expr.row, expr.col_start, expr.col_end));
                    }
                    Ok(Some(copy_value(&l[*i as usize])))
                },
                _ => {
                    let t1 = value_type_to_string(&lv);
                    let t2 = value_type_to_string(&iv);
                    let a = concat("Cannot access list with types ", t1.as_str());
                    let b = concat(a.as_str(), " and ");
                    let m = concat(b.as_str(), t2.as_str());
                    Err(located(m, expr.row, expr.col_start, expr.col_end))
                },
            }
        },
    }
}

/// Evaluates both operands, left first, and combines their values.
fn interpret_binary(
    k: BinaryKind,
    left: &RecExpr<()>,
    right: &RecExpr<()>,
    row: usize,
    col_start: usize,
    col_end: usize,
    env: &mut Vec<Vec<Binding>>,
    terminal: &mut Vec<String>,
    fuel: u64,
) -> (r: Result<Option<Value>, Error>)
    ensures
        match eval_binary(k, rec_view(*left), rec_view(*right), (row as int, col_start as int, col_end as int), state_of(old(env)@, old(terminal)@), fuel as nat) {
            Ok((v, st)) => r matches Ok(x) && opt_value_view(x) == v && state_of(final(env)@, final(terminal)@) == st,
            Err(e) => r matches Err(err) && run_error_matches(err, e),
        },
    decreases fuel, 1 + rec_size(rec_view(*left)) + rec_size(rec_view(*right)), 0nat,
{
    let a = match interpret_expr(left, env, terminal, fuel) {
        Ok(v) => v,
        Err(e) => return Err(e),
    };
    let b = match interpret_expr(right, env, terminal, fuel) {
        Ok(v) => v,
        Err(e) => return Err(e),
    };
    combine_values(k, a, b, row, col_start, col_end)
}

/// Evaluates expressions in order; `message` is the error for one without a value.
fn interpret_list(els: &Vec<RecExpr<()>>, message: &str, env: &mut Vec<Vec<Binding>>, terminal: &mut Vec<String>, fuel: u64) -> (r: Result<Vec<Value>, Error>)
    ensures
        match eval_list(recs_view(els@), message@, state_of(old(env)@, old(terminal)@), fuel as nat) {
            Ok((vs, st)) => r matches Ok(x) && values_view(x@) == vs && state_of(final(env)@, final(terminal)@) == st,
            Err(e) => r matches Err(err) && run_error_matches(err, e),
        },
    decreases fuel, recs_size(recs_view(els@)), 0nat,
{
    let ghost ev = recs_view(els@);
    let ghost st0 = state_of(env@, terminal@);
    proof {
        lemma_recs_view(els@);
        lemma_recs_size(ev);
    }
    let mut out: Vec<Value> = Vec::new();
    let mut i: usize = 0;
    assert(ev.subrange(0, 0) =~= Seq::<RecExprView<()>>::empty());
    assert(values_view(out@) =~= Seq::<ValueView>::empty());
    while i < els.len()
        invariant
            i <= els@.len(),
            ev == recs_view(els@),
            ev.len() == els@.len(),
            forall|j: int| 0 <= j < els@.len() ==> #[trigger] ev[j] == rec_view(els@[j]),
            forall|j: int| 0 <= j < els@.len() ==> rec_size(#[trigger] ev[j]) < recs_size(ev),
            st0 == state_of(old(env)@, old(terminal)@),
            eval_list(ev.subrange(0, i as int), message@, st0, fuel as nat)
                == Ok::<(Seq<ValueView>, RunState), RunErrorView>((values_view(out@), state_of(env@, terminal@))),
        decreases els@.len() - i,
    {
        assert(ev.subrange(0, i + 1).drop_last() =~= ev.subrange(0, i as int));
        assert(ev.subrange(0, i + 1).last() == ev[i as int]);
        let e = &els[i];
        match interpret_expr(e, env, terminal, fuel) {
            Ok(Some(v)) => {
                let ghost before = out@;
                out.push(v);
                assert(out@.drop_last() =~= before);
            },
            Ok(None) => {
                proof { lemma_eval_list_prefix(ev, message@, st0, fuel as nat, i + 1); }
                return Err(located(String::from_str(message), e.row, e.col_start, e.col_end));
            },
            Err(err) => {
                proof { lemma_eval_list_prefix(ev, message@, st0, fuel as nat, i + 1); }
                return Err(err);
            },
        }
        i = i + 1;
    }
    assert(ev.subrange(0, els@.len() as int) =~= ev);
    Ok(out)
}

/// Calls a value with argument values.
fn call_value(
    f: Value,
    vals: Vec<Value>,
    name: &String,
    row: usize,
    col_start: usize,
    col_end: usize,
    env: &mut Vec<Vec<Binding>>,
    terminal: &mut Vec<String>,
    fuel: u64,
) -> (r: Result<Option<Value>, Error>)
    ensures
        match call(value_view(f), values_view(vals@), name@, (row as int, col_start as int, col_end as int), state_of(old(env)@, old(terminal)@), fuel as nat) {
            Ok((v, st)) => r matches Ok(x) && opt_value_view(x) == v && state_of(final(env)@, final(terminal)@) == st,
            Err(e) => r matches Err(err) && run_error_matches(err, e),
        },
    decreases fuel, 0nat, 0nat,
{
    proof { lemma_values_view(vals@); }
    match f {
        Value::Function { name: _, args, body } => {
            if args.len() != vals.len() {
                let a = usize_text(args.len());
                let b = usize_text(vals.len());
                let m1 = concat("Expected ", a.as_str());
                let m2 = concat(m1.as_str(), " arguments, but got ");
                let m = concat(m2.as_str(), b.as_str());
                return Err(located(m, row, col_start, col_end));
            }
            if fuel == 0 {
                return Err(Error::SimpleError { message: String::from_str("Function calls are nested too deeply") });
            }
            let mut scope: Vec<Binding> = Vec::new();
            let mut i: usize = 0;
            while i < args.len()
                invariant
                    i <= args@.len(),
                    args@.len() == vals@.len(),
                    values_view(vals@).len() == vals@.len(),
                    forall|j: int| 0 <= j < vals@.len() ==> #[trigger] values_view(vals@)[j] == value_view(vals@[j]),
                    scope@.len() == i,
                    scope_view(scope@) == call_scope(strings_view(args@), values_view(vals@)).subrange(0, i as int),
                decreases args@.len() - i,
            {
                let ghost before = scope@;
                scope.push(Binding { name: args[i].clone(), value: copy_value(&vals[i]) });
                assert forall|j: int| 0 <= j < i + 1 implies #[trigger] scope_view(scope@)[j] == call_scope(strings_view(args@), values_view(vals@)).subrange(0, i + 1)[j] by {
                    assert(strings_view(args@)[j] == args@[j]@);
                    if j < i {
                        assert(scope_view(before)[j] == call_scope(strings_view(args@), values_view(vals@)).subrange(0, i as int)[j]);
                        assert(scope_view(before)[j] == binding_view(before[j]));
                    }
                }
                assert(scope_view(scope@) =~= call_scope(strings_view(args@), values_view(vals@)).subrange(0, i + 1));
                i = i + 1;
            }
            assert(call_scope(strings_view(args@), values_view(vals@)).subrange(0, i as int) =~= call_scope(strings_view(args@), values_view(vals@)));
            let ghost eb = env@;
            env.push(scope);
            assert(env_view(env@) =~= env_view(eb).push(scope_view(scope@)));
            match run_block_exec(&body, BlockMode::Function, env, terminal, fuel - 1) {
                Err(e) => Err(e),
                Ok(BlockExit::Stop(InterpretationResult::Return { value })) => Ok(value),
                Ok(BlockExit::Stop(_)) => Ok(None),
                Ok(BlockExit::Continue) => {
                    let ghost ea = env@;
                    let _ = env.pop();
                    proof {
                        if ea.len() > 0 {
                            assert(env_view(env@) =~= env_view(ea).drop_last());
                        }
                    }
                    Ok(None)
                },
            }
        },
        Value::StandardFunction(sf) => {
            let mut i: usize = 0;
            assert(write_values(term_view(terminal@), values_view(vals@).subrange(0, 0)) == term_view(terminal@));
            let ghost t0 = term_view(terminal@);
            while i < vals.len()
                invariant
                    i <= vals@.len(),
                    values_view(vals@).len() == vals@.len(),
                    forall|j: int| 0 <= j < vals@.len() ==> #[trigger] values_view(vals@)[j] == value_view(vals@[j]),
                    term_view(terminal@) == write_values(t0, values_view(vals@).subrange(0, i as int)),
                    env@ == old(env)@,
                    t0 == term_view(old(terminal)@),
                decreases vals@.len() - i,
            {
                let text = value_to_string(&vals[i]);
                write_exec(terminal, &text);
                assert(values_view(vals@).subrange(0, i + 1).drop_last() =~= values_view(vals@).subrange(0, i as int));
                i = i + 1;
            }
            assert(values_view(vals@).subrange(0, vals@.len() as int) =~= values_view(vals@));
            if sf == StandardFunction::PrintLine {
                let ghost tb = terminal@;
                terminal.push(String::new());
                assert(term_view(terminal@) =~= term_view(tb).push(seq![]));
            }
            Ok(None)
        },
        other => {
            let t = value_type_to_string(&other);
            let a = concat("Expected function, found ", t.as_str());
            let b = concat(a.as_str(), " for variable ");
            let m = concat(b.as_str(), name.as_str());
            Err(located(m, row, col_start, col_end))
        },
    }
}

/// The decimal text of a count, for messages.
fn usize_text(n: usize) -> (r: String)
    ensures
        r@ == crate::text::nat_digits(n as nat),
{
    crate::text::usize_to_string(n)
}

/// Runs statements in order until one stops the block.
fn run_block_exec(body: &Vec<BaseExpr<()>>, mode: BlockMode, env: &mut Vec<Vec<Binding>>, terminal: &mut Vec<String>, fuel: u64) -> (r: Result<BlockExit, Error>)
    ensures
        match run_block(bases_view(body@), mode, state_of(old(env)@, old(terminal)@), fuel as nat) {
            Ok((o, st)) => r matches Ok(x) && exit_view(x) == o && state_of(final(env)@, final(terminal)@) == st,
            Err(e) => r matches Err(err) && run_error_matches(err, e),
        },
    decreases fuel, stmts_size(bases_view(body@)), 0nat,
{
    let ghost bv = bases_view(body@);
    let ghost st0 = state_of(env@, terminal@);
    proof {
        lemma_bases_view(body@);
        lemma_stmts_size(bv);
    }
    let mut i: usize = 0;
    assert(bv.subrange(0, 0) =~= Seq::<BaseExprView<()>>::empty());
    while i < body.len()
        invariant
            i <= body@.len(),
            bv == bases_view(body@),
            bv.len() == body@.len(),
            forall|j: int| 0 <= j < body@.len() ==> #[trigger] bv[j] == base_view(body@[j]),
            forall|j: int| 0 <= j < body@.len() ==> stmt_size(#[trigger] bv[j]) < stmts_size(bv),
            st0 == state_of(old(env)@, old(terminal)@),
            run_block(bv.subrange(0, i as int), mode, st0, fuel as nat)
                == Ok::<(BlockOutcome, RunState), RunErrorView>((BlockOutcome::Continue, state_of(env@, terminal@))),
        decreases body@.len() - i,
    {
        assert(bv.subrange(0, i + 1).drop_last() =~= bv.subrange(0, i as int));
        assert(bv.subrange(0, i + 1).last() == bv[i as int]);
        let b = &body[i];
        let f = match interpret_base_expr(b, env, terminal, fuel) {
            Ok(f) => f,
            Err(e) => {
                proof { lemma_block_prefix(bv, mode, st0, fuel as nat, i + 1); }
                return Err(e);
            },
        };
        match block_step_exec(mode, f, b.row, b.col_start, b.col_end) {
            Ok(BlockExit::Continue) => {},
            Ok(BlockExit::Stop(x)) => {
                proof { lemma_block_prefix(bv, mode, st0, fuel as nat, i + 1); }
                return Ok(BlockExit::Stop(x));
            },
            Err(e) => {
                proof { lemma_block_prefix(bv, mode, st0, fuel as nat, i + 1); }
                return Err(e);
            },
        }
        i = i + 1;
    }
    assert(bv.subrange(0, body@.len() as int) =~= bv);
    Ok(BlockExit::Continue)
}

/// Runs the body of a `for` loop once for each value, with the loop variable set to it.
fn run_loop_exec(
    values: Vec<Value>,
    var: &String,
    row: usize,
    col_start: usize,
    col_end: usize,
    body: &Vec<BaseExpr<()>>,
    env: &mut Vec<Vec<Binding>>,
    terminal: &mut Vec<String>,
    fuel: u64,
) -> (r: Result<BlockExit, Error>)
    ensures
        match run_loop(values_view(values@), var@, (row as int, col_start as int, col_end as int), bases_view(body@), state_of(old(env)@, old(terminal)@), fuel as nat) {
            Ok((o, st)) => r matches Ok(x) && exit_view(x) == o && state_of(final(env)@, final(terminal)@) == st,
            Err(e) => r matches Err(err) && run_error_matches(err, e),
        },
    decreases fuel, stmts_size(bases_view(body@)) + 1, values@.len(),
{
    let ghost vv = values_view(values@);
    let ghost st0 = state_of(env@, terminal@);
    let ghost pos = (row as int, col_start as int, col_end as int);
    proof { lemma_values_view(values@); }
    let mut i: usize = 0;
    assert(vv.subrange(0, 0) =~= Seq::<ValueView>::empty());
    while i < values.len()
        invariant
            i <= values@.len(),
            vv == values_view(values@),
            vv.len() == values@.len(),
            forall|j: int| 0 <= j < values@.len() ==> #[trigger] vv[j] == value_view(values@[j]),
            st0 == state_of(old(env)@, old(terminal)@),
            pos == (row as int, col_start as int, col_end as int),
            run_loop(vv.subrange(0, i as int), var@, pos, bases_view(body@), st0, fuel as nat)
                == Ok::<(BlockOutcome, RunState), RunErrorView>((BlockOutcome::Continue, state_of(env@, terminal@))),
        decreases values@.len() - i,
    {
        assert(vv.subrange(0, i + 1).drop_last() =~= vv.subrange(0, i as int));
        assert(vv.subrange(0, i + 1).last() == vv[i as int]);
        let ghost orig = env_view(env@);
        let mut scope = take_last(env);
        if !update_in_scope(&values[i], var, &mut scope) {
            put_last(env, scope, Ghost(orig));
            proof { lemma_loop_prefix(vv, var@, pos, bases_view(body@), st0, fuel as nat, i + 1); }
            let a = concat("Variable ", var.as_str());
            let m = concat(a.as_str(), " not found");
            return Err(located(m, row, col_start, col_end));
        }
        put_last(env, scope, Ghost(orig));
        match run_block_exec(body, BlockMode::Loop, env, terminal, fuel) {
            Ok(BlockExit::Continue) => {},
            Ok(BlockExit::Stop(x)) => {
                proof { lemma_loop_prefix(vv, var@, pos, bases_view(body@), st0, fuel as nat, i + 1); }
                return Ok(BlockExit::Stop(x));
            },
            Err(e) => {
                proof { lemma_loop_prefix(vv, var@, pos, bases_view(body@), st0, fuel as nat, i + 1); }
                return Err(e);
            },
        }
        i = i + 1;
    }
    assert(vv.subrange(0, values@.len() as int) =~= vv);
    Ok(BlockExit::Continue)
}

spec fn opt_else_view(e: Option<Box<BaseExpr<()>>>) -> Option<Box<BaseExprView<()>>> {
    match e {
        Some(x) => Some(Box::new(base_view(*x))),
        None => None,
    }
}

/// Runs an `if` or `else if` statement.
fn run_branch_exec(
    c: &RecExpr<()>,
    body: &Vec<BaseExpr<()>>,
    els: &Option<Box<BaseExpr<()>>>,
    env: &mut Vec<Vec<Binding>>,
    terminal: &mut Vec<String>,
    fuel: u64,
) -> (r: Result<InterpretationResult, Error>)
    ensures
        match run_branch(rec_view(*c), bases_view(body@), opt_else_view(*els), state_of(old(env)@, old(terminal)@), fuel as nat) {
            Ok((f, st)) => r matches Ok(x) && flow_view(x) == f && state_of(final(env)@, final(terminal)@) == st,
            Err(e) => r matches Err(err) && run_error_matches(err, e),
        },
    decreases fuel, 1 + rec_size(rec_view(*c)) + stmts_size(bases_view(body@)) + match opt_else_view(*els) {
        Some(x) => stmt_size(*x),
        None => 0,
    }, 0nat,
{
    let cond = match interpret_expr(c, env, terminal, fuel) {
        Ok(Some(Value::Bool(b))) => b,
        Ok(Some(other)) => {
            let t = value_type_to_string(&other);
            let a = concat("Cannot use ", t.as_str());
            let m = concat(a.as_str(), " as a condition for an if statement");
            return Err(located(m, c.row, c.col_start, c.col_end));
        },
        Ok(None) => return Err(located(String::from_str("Cannot use empty as a condition for an if statement"), c.row, c.col_start, c.col_end)),
        Err(e) => return Err(e),
    };
    if !cond {
        return match els {
            Some(x) => interpret_base_expr(&**x, env, terminal, fuel),
            None => Ok(InterpretationResult::Empty),
        };
    }
    match run_block_exec(body, BlockMode::Branch, env, terminal, fuel) {
        Ok(x) => Ok(exit_result(x)),
        Err(e) => Err(e),
    }
}

/// The numbers from zero up to (not including) `n`.
fn range_exec(n: i32) -> (r: Vec<Value>)
    ensures
        values_view(r@) == range_values(n),
{
    let mut r: Vec<Value> = Vec::new();
    let mut i: i32 = 0;
    while i < n
        invariant
            0 <= i,
            n <= 0 ==> i == 0,
            n > 0 ==> i <= n,
            r@.len() == i,
            forall|j: int| 0 <= j < i ==> value_view(#[trigger] r@[j]) == ValueView::Number(j as i32),
        decreases n - i,
    {
        r.push(Value::Number(i));
        i = i + 1;
    }
    proof {
        lemma_values_view(r@);
        assert(values_view(r@) =~= range_values(n));
    }
    r
}

/// Runs one statement.
fn interpret_base_expr(b: &BaseExpr<()>, env: &mut Vec<Vec<Binding>>, terminal: &mut Vec<String>, fuel: u64) -> (r: Result<InterpretationResult, Error>)
    ensures
        match run_stmt(base_view(*b), state_of(old(env)@, old(terminal)@), fuel as nat) {
            Ok((f, st)) => r matches Ok(x) && flow_view(x) == f && state_of(final(env)@, final(terminal)@) == st,
            Err(e) => r matches Err(err) && run_error_matches(err, e),
        },
    decreases fuel, stmt_size(base_view(*b)), 1nat,
{
    match &b.data {
        BaseExprData::Simple { expr } => match interpret_expr(expr, env, terminal, fuel) {
            Ok(_) => Ok(InterpretationResult::Empty),
            Err(e) => Err(e),
        },
        BaseExprData::VariableAssignment { var_name, expr } => match interpret_expr(expr, env, terminal, fuel) {
            Ok(Some(v)) => {
                assign_exec(env, var_name, &v);
                Ok(InterpretationResult::Empty)
            },
            Ok(None) => Err(located(String::from_str("Cannot assign to empty"), b.row, b.col_start, b.col_end)),
            Err(e) => Err(e),
        },
        BaseExprData::IfStatement { condition, body, else_statement } => run_branch_exec(condition, body, else_statement, env, terminal, fuel),
        BaseExprData::ElseIfStatement { condition, body, else_statement } => run_branch_exec(condition, body, else_statement, env, terminal, fuel),
        BaseExprData::ElseStatement { body } => match run_block_exec(body, BlockMode::Branch, env, terminal, fuel) {
            Ok(x) => Ok(exit_result(x)),
            Err(e) => Err(e),
        },
        BaseExprData::PlusEqualsStatement { var_name, expr } => {
            let value = match interpret_expr(expr, env, terminal, fuel) {
                Ok(Some(v)) => v,
                Ok(None) => return Err(located(String::from_str("Cannot assign to empty"), b.row, b.col_start, b.col_end)),
                Err(e) => return Err(e),
            };
            let current = match find_in_env(var_name, env) {
                Some(v) => v,
                None => {
                    let a = concat("Variable ", var_name.as_str());
                    let m = concat(a.as_str(), " not found");
                    return Err(located(m, b.row, b.col_start, b.col_end));
                },
            };
            let new_value = match add_values_exec(Some(current), Some(value), b.row, b.col_start, b.col_end) {
                Ok(v) => v,
                Err(e) => return Err(e),
            };
            let ghost orig = env_view(env@);
            let mut scope = take_last(env);
            if !update_in_scope(&new_value, var_name, &mut scope) {
                put_last(env, scope, Ghost(orig));
                let a = concat("Variable ", var_name.as_str());
                let m = concat(a.as_str(), " not found");
                return Err(located(m, expr.row, expr.col_start, expr.col_end));
            }
            put_last(env, scope, Ghost(orig));
            Ok(InterpretationResult::Empty)
        },
        BaseExprData::FunctionDefinition { fun_name, args, body } => {
            let function = Value::Function { name: fun_name.clone(), args: copy_strings(args), body: copy_base_exprs(body) };
            assign_exec(env, fun_name, &function);
            Ok(InterpretationResult::Empty)
        },
        BaseExprData::Return { return_value } => match return_value {
            None => Ok(InterpretationResult::Return { value: None }),
            Some(e) => match interpret_expr(e, env, terminal, fuel) {
                Ok(v) => Ok(InterpretationResult::Return { value: v }),
                Err(err) => Err(err),
            },
        },
        BaseExprData::Break => Ok(InterpretationResult::Break),
        BaseExprData::ForLoop { var_name, until, body } => {
            let values = match interpret_expr(until, env, terminal, fuel) {
                Ok(Some(Value::Number(n))) => range_exec(n),
                Ok(Some(Value::List(vs))) => vs,
                Ok(Some(other)) => {
                    let t = value_type_to_string(&other);
                    let a = concat("Cannot use ", t.as_str());
                    let m = concat(a.as_str(), " as a condition for a for loop");
                    return Err(located(m, until.row, until.col_start, until.col_end));
                },
                Ok(None) => return Err(located(String::from_str("Cannot use empty as a condition for a for loop"), until.row, until.col_start, until.col_end)),
                Err(e) => return Err(e),
            };
            assign_exec(env, var_name, &Value::Number(0));
            match run_loop_exec(values, var_name, until.row, until.col_start, until.col_end, body, env, terminal, fuel) {
                Ok(x) => Ok(exit_result(x)),
                Err(e) => Err(e),
            }
        },
    }
}

/// Runs a program; gives the lines it printed (the last one still open) and the error
/// that stopped it, if one did. Where an error stopped it, the lines are those printed
/// before the error.
pub fn interpret_with_output(base_expressions: Vec<BaseExpr<()>>) -> (r: (Terminal, Option<Error>))
    ensures
        match run_program(bases_view(base_expressions@)) {
            Ok(st) => r.1 is None && term_view(r.0@) == st.term,
            Err(e) => r.1 matches Some(err) && run_error_matches(err, e),
        },
{
    let mut env: Vec<Vec<Binding>> = Vec::new();
    let mut scope: Vec<Binding> = Vec::new();
    scope.push(Binding { name: String::from_str("print"), value: Value::StandardFunction(StandardFunction::Print) });
    scope.push(Binding { name: String::from_str("println"), value: Value::StandardFunction(StandardFunction::PrintLine) });
    env.push(scope);
    let mut terminal: Terminal = Vec::new();
    terminal.push(String::new());
    assert(env_view(env@) =~= start_state().env) by {
        assert(scope_view(env@[0]@) =~= start_state().env[0]);
    }
    assert(term_view(terminal@) =~= start_state().term);
    match run_block_exec(&base_expressions, BlockMode::Top, &mut env, &mut terminal, CALL_DEPTH_LIMIT) {
        Ok(_) => (terminal, None),
        Err(e) => (terminal, Some(e)),
    }
}

/// Runs a program; gives the lines it printed (the last one still open), or the error
/// that stopped it.
pub fn interpret(base_expressions: Vec<BaseExpr<()>>) -> (r: Result<Terminal, Error>)
    ensures
        match run_program(bases_view(base_expressions@)) {
            Ok(st) => r matches Ok(t) && term_view(t@) == st.term,
            Err(e) => r matches Err(err) && run_error_matches(err, e),
        },
{
    match interpret_with_output(base_expressions) {
        (t, None) => Ok(t),
        (_, Some(e)) => Err(e),
    }
}

} // verus!
