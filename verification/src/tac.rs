//! Three-address code: the typed program flattened into simple instructions on named
//! variables, temporaries `t<n>` and labels `L<n>`.
use vstd::prelude::*;
use crate::tokenizer::Error;
use crate::parser::BaseExpr;
use crate::parser::BaseExprData;
use crate::parser::BaseExprView;
use crate::parser::BaseExprDataView;
use crate::parser::RecExpr;
use crate::parser::RecExprData;
use crate::parser::RecExprView;
use crate::parser::RecExprDataView;
use crate::parser::BinaryKind;
use crate::parser::rec_view;
use crate::parser::base_view;
use crate::parser::bases_view;
use crate::parser::recs_view;
use crate::parser::strings_view;
use crate::parser::rec_size;
use crate::parser::recs_size;
use crate::parser::stmt_size;
use crate::parser::stmts_size;
use crate::parser::lemma_recs_size;
use crate::parser::lemma_stmts_size;
use crate::parser::lemma_bases_view;
use crate::parser::lemma_recs_view;
use crate::parser::copy_strings;
use crate::typechecker::Type;
use crate::typechecker::FunctionType;
use crate::typechecker::FunctionTypeView;
use crate::typechecker::fns_view;
use crate::typechecker::fn_view;
use crate::typechecker::copy_type;
use crate::typechecker::copy_types;
use crate::typechecker::types_equal;
use crate::text::concat;
use crate::text::numbered_name;
use crate::text::nat_digits;
use crate::codegenerator::Instruction;
use crate::codegenerator::InstrView;
use crate::codegenerator::minstr_view;

verus! {

/// A three-address instruction.
#[derive(Debug, PartialEq)]
pub enum TacInstruction {
    Assign(String, TacValue),
    BinOp(String, TacValue, BinOp, TacValue),
    UnaryOp(String, UnOp, TacValue),
    Goto(String),
    /// Jump to the label when the value is false.
    If(TacValue, String),
    Label(String),
    /// A function's entry point, with its parameter names.
    FunctionLabel(String, Vec<String>),
    /// A call of the function at a label, with the variable for its result, if any.
    Call(String, Vec<TacValue>, Option<String>),
    Return(Option<TacValue>),
    /// A machine instruction passed through to the generated code as it is.
    DirectInstruction(Instruction),
}

/// The binary operators of three-address code.
#[derive(PartialEq, Eq, Structural, Clone, Copy, Debug)]
pub enum BinOp {
    Add,
    Sub,
    Mul,
    Div,
    Eq,
    Ne,
    Lt,
    Le,
    Gt,
    Ge,
    And,
    Or,
}

/// The unary operators of three-address code.
#[derive(PartialEq, Eq, Structural, Clone, Copy, Debug)]
pub enum UnOp {
    Neg,
    Not,
}

/// An operand: a constant, a variable or a string.
#[derive(Debug, PartialEq)]
pub enum TacValue {
    Constant(i32),
    Variable(String),
    StringLiteral(String),
}

/// A function instance the generated code can call: its name and parameter types, its
/// return type and the label of its code.
#[derive(Debug)]
pub struct TacFunction {
    pub name: String,
    pub params: Vec<Type>,
    pub return_type: Type,
    pub label: String,
}

/// The mathematical content of an operand.
pub enum TacValueView {
    Constant(i32),
    Variable(Seq<char>),
    StringLiteral(Seq<char>),
}

/// The mathematical content of an instruction.
pub enum TacInstrView {
    Assign(Seq<char>, TacValueView),
    BinOp(Seq<char>, TacValueView, BinOp, TacValueView),
    UnaryOp(Seq<char>, UnOp, TacValueView),
    Goto(Seq<char>),
    If(TacValueView, Seq<char>),
    Label(Seq<char>),
    FunctionLabel(Seq<char>, Seq<Seq<char>>),
    Call(Seq<char>, Seq<TacValueView>, Option<Seq<char>>),
    Return(Option<TacValueView>),
    DirectInstruction(InstrView),
}

/// The mathematical content of a callable function instance.
pub struct TacFunctionView {
    pub name: Seq<char>,
    pub params: Seq<Type>,
    pub return_type: Type,
    pub label: Seq<char>,
}

/// The view of an operand.
pub open spec fn value_view(v: TacValue) -> TacValueView {
    match v {
        TacValue::Constant(c) => TacValueView::Constant(c),
        TacValue::Variable(s) => TacValueView::Variable(s@),
        TacValue::StringLiteral(s) => TacValueView::StringLiteral(s@),
    }
}

/// The views of operands.
pub open spec fn values_view(s: Seq<TacValue>) -> Seq<TacValueView> {
    s.map_values(|v: TacValue| value_view(v))
}

/// The view of an instruction.
pub open spec fn instr_view(i: TacInstruction) -> TacInstrView {
    match i {
        TacInstruction::Assign(d, v) => TacInstrView::Assign(d@, value_view(v)),
        TacInstruction::BinOp(d, l, op, r) => TacInstrView::BinOp(d@, value_view(l), op, value_view(r)),
        TacInstruction::UnaryOp(d, op, v) => TacInstrView::UnaryOp(d@, op, value_view(v)),
        TacInstruction::Goto(l) => TacInstrView::Goto(l@),
        TacInstruction::If(v, l) => TacInstrView::If(value_view(v), l@),
        TacInstruction::Label(l) => TacInstrView::Label(l@),
        TacInstruction::FunctionLabel(l, ps) => TacInstrView::FunctionLabel(l@, strings_view(ps@)),
        TacInstruction::Call(f, args, ret) => TacInstrView::Call(f@, values_view(args@), match ret {
            Some(r) => Some(r@),
            None => None,
        }),
        TacInstruction::Return(v) => TacInstrView::Return(match v {
            Some(x) => Some(value_view(x)),
            None => None,
        }),
        TacInstruction::DirectInstruction(m) => TacInstrView::DirectInstruction(minstr_view(m)),
    }
}

/// The views of instructions.
pub open spec fn instrs_view(s: Seq<TacInstruction>) -> Seq<TacInstrView> {
    s.map_values(|i: TacInstruction| instr_view(i))
}

impl View for TacInstruction {
    type V = TacInstrView;

    open spec fn view(&self) -> TacInstrView {
        instr_view(*self)
    }
}

/// The view of a function instance.
pub open spec fn tac_fn_view(f: TacFunction) -> TacFunctionView {
    TacFunctionView { name: f.name@, params: f.params@, return_type: f.return_type, label: f.label@ }
}

/// The state of code generation: the code so far, the next temporary and label
/// numbers, and the function instances that calls can reach.
pub struct TacState {
    pub code: Seq<TacInstrView>,
    pub temp: nat,
    pub label: nat,
    pub fns: Seq<TacFunctionView>,
}

/// The name of a temporary.
pub open spec fn temp_name(n: nat) -> Seq<char> {
    "t"@ + nat_digits(n)
}

/// The name of a label.
pub open spec fn label_name(n: nat) -> Seq<char> {
    "L"@ + nat_digits(n)
}

/// The label of a function's code.
pub open spec fn fn_label(name: Seq<char>) -> Seq<char> {
    "func_"@ + name
}

/// The result name given to calls of functions without a return value.
pub open spec fn no_result_name() -> Seq<char> {
    "no_result"@
}

/// The state with a temporary used, if numbers remain.
pub open spec fn use_temp(st: TacState) -> Option<(Seq<char>, TacState)> {
    if st.temp >= usize::MAX {
        None
    } else {
        Some((temp_name(st.temp), TacState { temp: st.temp + 1, ..st }))
    }
}

/// The state with a label used, if numbers remain.
pub open spec fn use_label(st: TacState) -> Option<(Seq<char>, TacState)> {
    if st.label >= usize::MAX {
        None
    } else {
        Some((label_name(st.label), TacState { label: st.label + 1, ..st }))
    }
}

/// The state with an instruction appended.
pub open spec fn emit(st: TacState, i: TacInstrView) -> TacState {
    TacState { code: st.code.push(i), ..st }
}

/// The three-address operator of an expression operator, if it has one.
pub open spec fn tac_op(k: BinaryKind) -> Option<BinOp> {
    match k {
        BinaryKind::Add => Some(BinOp::Add),
        BinaryKind::Subtract => Some(BinOp::Sub),
        BinaryKind::Multiply => Some(BinOp::Mul),
        BinaryKind::Divide => Some(BinOp::Div),
        BinaryKind::Equals => Some(BinOp::Eq),
        BinaryKind::NotEquals => Some(BinOp::Ne),
        BinaryKind::LessThan => Some(BinOp::Lt),
        BinaryKind::LessThanOrEqual => Some(BinOp::Le),
        BinaryKind::GreaterThan => Some(BinOp::Gt),
        BinaryKind::GreaterThanOrEqual => Some(BinOp::Ge),
        BinaryKind::Or => Some(BinOp::Or),
        BinaryKind::And => Some(BinOp::And),
        BinaryKind::Power => None,
    }
}

/// The index of the first function instance with this name and these parameter types.
pub open spec fn find_tac_fn(fns: Seq<TacFunctionView>, name: Seq<char>, types: Seq<Type>, i: int) -> Option<int>
    decreases fns.len() - i,
{
    if i < 0 || i >= fns.len() {
        None
    } else if fns[i].name == name && fns[i].params == types {
        Some(i)
    } else {
        find_tac_fn(fns, name, types, i + 1)
    }
}

/// The message of running out of temporary or label numbers.
pub open spec fn too_many_message() -> Seq<char> {
    "Too many temporaries or labels"@
}

/// The text that std's `{:?}` formatting, through the derived `Debug`, gives for the data
/// of an expression (its kind and fields, not its place and type).
pub uninterp spec fn expr_data_debug_text(e: RecExprView<Type>) -> Seq<char>;

/// std's `{:?}` text of an expression's data. The contract says only that the text is
/// the same for the same expression; what the text is, the derived `Debug` and std's
/// formatting decide.
#[verifier::external_body]
fn debug_text(e: &RecExpr<Type>) -> (r: String)
    ensures
        r@ == expr_data_debug_text(rec_view(*e)),
{
    format!("{:?}", e.data)
}

/// The message of an expression that has no three-address form: its kind, with the
/// debug text of its data.
pub open spec fn unsupported_message(e: RecExprView<Type>) -> Seq<char> {
    "Unsupported expression type "@ + expr_data_debug_text(e)
}

/// Generates code computing an expression; gives the operand holding its value.
/// Unsupported expressions (lists, powers, negation, list access) are errors.
pub open spec fn gen_expr(e: RecExprView<Type>, st: TacState) -> Result<(TacValueView, TacState), Seq<char>>
    decreases rec_size(e), 1nat,
{
    match e.data {
        RecExprDataView::Number(n) => Ok((TacValueView::Constant(n), st)),
        RecExprDataView::Str(s) => Ok((TacValueView::StringLiteral(s), st)),
        RecExprDataView::Variable(n) => Ok((TacValueView::Variable(n), st)),
        RecExprDataView::Boolean(b) => Ok((TacValueView::Constant(if b { 1 } else { 0 }), st)),
        RecExprDataView::Binary(k, l, r) => match tac_op(k) {
            None => Err(unsupported_message(e)),
            Some(op) => gen_binary(op, *l, *r, st),
        },
        RecExprDataView::Not(x) => match gen_expr(*x, st) {
            Err(m) => Err(m),
            Ok((v, st1)) => match use_temp(st1) {
                None => Err(too_many_message()),
                Some((t, st2)) => Ok((TacValueView::Variable(t), emit(st2, TacInstrView::UnaryOp(t, UnOp::Neg, v)))),
            },
        },
        RecExprDataView::FunctionCall(name, args) => match gen_args(args, st) {
            Err(m) => Err(m),
            Ok((vals, st1)) => match find_tac_fn(st1.fns, name, args.map_values(|a: RecExprView<Type>| a.generic_data), 0) {
                None => Err("Function '"@ + name + "' with specified argument types not found"@),
                Some(i) => if st1.fns[i].return_type == Type::Undefined {
                    Ok((TacValueView::Variable(no_result_name()), emit(st1, TacInstrView::Call(st1.fns[i].label, vals, None))))
                } else {
                    match use_temp(st1) {
                        None => Err(too_many_message()),
                        Some((t, st2)) => Ok((TacValueView::Variable(t), emit(st2, TacInstrView::Call(st1.fns[i].label, vals, Some(t))))),
                    }
                },
            },
        },
        RecExprDataView::List(_) => Err("List expressions are not supported in TAC generation"@),
        _ => Err(unsupported_message(e)),
    }
}

/// Generates code for both operands, left first, and the operation into a temporary.
pub open spec fn gen_binary(op: BinOp, l: RecExprView<Type>, r: RecExprView<Type>, st: TacState) -> Result<(TacValueView, TacState), Seq<char>>
    decreases 1 + rec_size(l) + rec_size(r), 0nat,
{
    match gen_expr(l, st) {
        Err(m) => Err(m),
        Ok((lv, st1)) => match gen_expr(r, st1) {
            Err(m) => Err(m),
            Ok((rv, st2)) => match use_temp(st2) {
                None => Err(too_many_message()),
                Some((t, st3)) => Ok((TacValueView::Variable(t), emit(st3, TacInstrView::BinOp(t, lv, op, rv)))),
            },
        },
    }
}

/// Generates code for the arguments of a call, in order.
pub open spec fn gen_args(args: Seq<RecExprView<Type>>, st: TacState) -> Result<(Seq<TacValueView>, TacState), Seq<char>>
    decreases recs_size(args), 0nat,
{
    if args.len() == 0 {
        Ok((seq![], st))
    } else {
        proof {
            lemma_recs_size(args.drop_last());
            assert(recs_size(args) == recs_size(args.drop_last()) + rec_size(args.last()));
        }
        match gen_args(args.drop_last(), st) {
            Err(m) => Err(m),
            Ok((vs, st1)) => match gen_expr(args.last(), st1) {
                Err(m) => Err(m),
                Ok((v, st2)) => Ok((vs.push(v), st2)),
            },
        }
    }
}

/// Generates code for a statement. Statements that are only an expression, function
/// definitions and `break` give no code.
pub open spec fn gen_stmt(b: BaseExprView<Type>, st: TacState) -> Result<TacState, Seq<char>>
    decreases stmt_size(b), 1nat,
{
    match b.data {
        BaseExprDataView::VariableAssignment(v, e) => match gen_expr(e, st) {
            Err(m) => Err(m),
            Ok((val, st1)) => Ok(emit(st1, TacInstrView::Assign(v, val))),
        },
        BaseExprDataView::ForLoop(v, u, body) => match use_label(st) {
            None => Err(too_many_message()),
            Some((start, st1)) => match use_label(st1) {
                None => Err(too_many_message()),
                Some((end, st2)) => {
                    let st3 = emit(emit(st2, TacInstrView::Assign(v, TacValueView::Constant(0))), TacInstrView::Label(start));
                    match gen_expr(u, st3) {
                        Err(m) => Err(m),
                        Ok((uv, st4)) => match use_temp(st4) {
                            None => Err(too_many_message()),
                            Some((cond, st5)) => {
                                let st6 = emit(
                                    emit(st5, TacInstrView::BinOp(cond, TacValueView::Variable(v), BinOp::Lt, uv)),
                                    TacInstrView::If(TacValueView::Variable(cond), end),
                                );
                                match gen_block(body, st6) {
                                    Err(m) => Err(m),
                                    Ok(st7) => match use_temp(st7) {
                                        None => Err(too_many_message()),
                                        Some((inc, st8)) => Ok(emit(emit(emit(emit(
                                            st8,
                                            TacInstrView::BinOp(inc, TacValueView::Variable(v), BinOp::Add, TacValueView::Constant(1))),
                                            TacInstrView::Assign(v, TacValueView::Variable(inc))),
                                            TacInstrView::Goto(start)),
                                            TacInstrView::Label(end))),
                                    },
                                }
                            },
                        },
                    }
                },
            },
        },
        BaseExprDataView::Return(Some(e)) => match gen_expr(e, st) {
            Err(m) => Err(m),
            Ok((val, st1)) => Ok(emit(st1, TacInstrView::Return(Some(val)))),
        },
        BaseExprDataView::Return(None) => Ok(emit(st, TacInstrView::Return(None))),
        BaseExprDataView::If(c, body, els) => gen_branch(c, body, els, st),
        BaseExprDataView::ElseIf(c, body, els) => gen_branch(c, body, els, st),
        BaseExprDataView::Else(body) => gen_block(body, st),
        _ => Ok(st),
    }
}

/// Generates code for an `if` or `else if` statement: the condition, a jump to the
/// `else` branch when it is false, the body, a jump to the end, then the `else` branch.
pub open spec fn gen_branch(
    c: RecExprView<Type>,
    body: Seq<BaseExprView<Type>>,
    els: Option<Box<BaseExprView<Type>>>,
    st: TacState,
) -> Result<TacState, Seq<char>>
    decreases 1 + rec_size(c) + stmts_size(body) + match els {
        Some(x) => stmt_size(*x),
        None => 0,
    }, 0nat,
{
    match use_label(st) {
        None => Err(too_many_message()),
        Some((next, st1)) => match use_label(st1) {
            None => Err(too_many_message()),
            Some((end, st2)) => match gen_expr(c, st2) {
                Err(m) => Err(m),
                Ok((cv, st3)) => match gen_block(body, emit(st3, TacInstrView::If(cv, next))) {
                    Err(m) => Err(m),
                    Ok(st4) => {
                        let st5 = emit(emit(st4, TacInstrView::Goto(end)), TacInstrView::Label(next));
                        match els {
                            None => Ok(emit(st5, TacInstrView::Label(end))),
                            Some(x) => match gen_stmt(*x, st5) {
                                Err(m) => Err(m),
                                Ok(st6) => Ok(emit(st6, TacInstrView::Label(end))),
                            },
                        }
                    },
                },
            },
        },
    }
}

/// Generates code for statements in order.
pub open spec fn gen_block(s: Seq<BaseExprView<Type>>, st: TacState) -> Result<TacState, Seq<char>>
    decreases stmts_size(s), 0nat,
{
    if s.len() == 0 {
        Ok(st)
    } else {
        proof {
            lemma_stmts_size(s.drop_last());
            assert(stmts_size(s) == stmts_size(s.drop_last()) + stmt_size(s.last()));
        }
        match gen_block(s.drop_last(), st) {
            Err(m) => Err(m),
            Ok(st1) => gen_stmt(s.last(), st1),
        }
    }
}

/// Generates the code of function instances in order: each becomes callable, gets its
/// label and parameter names, and then its body.
pub open spec fn gen_functions(fs: Seq<FunctionTypeView>, st: TacState) -> Result<TacState, Seq<char>>
    decreases fs.len(),
{
    if fs.len() == 0 {
        Ok(st)
    } else {
        match gen_functions(fs.drop_last(), st) {
            Err(m) => Err(m),
            Ok(st1) => {
                let f = fs.last();
                let entry = TacFunctionView { name: f.name, params: f.param_types, return_type: f.return_type, label: fn_label(f.name) };
                let st2 = emit(TacState { fns: st1.fns.push(entry), ..st1 }, TacInstrView::FunctionLabel(fn_label(f.name), f.param_names));
                gen_block(f.content, st2)
            },
        }
    }
}

/// The code for a typed program and its function instances: the functions first, then
/// the program's statements; the message of the first construct that cannot be generated.
pub open spec fn tac_program(program: Seq<BaseExprView<Type>>, functions: Seq<FunctionTypeView>) -> Result<Seq<TacInstrView>, Seq<char>> {
    match gen_functions(functions, TacState { code: seq![], temp: 0, label: 0, fns: seq![] }) {
        Err(m) => Err(m),
        Ok(st) => match gen_block(program, st) {
            Err(m) => Err(m),
            Ok(st2) => Ok(st2.code),
        },
    }
}

/// The state of code generation.
struct TacGen {
    code: Vec<TacInstruction>,
    temp: usize,
    label: usize,
    fns: Vec<TacFunction>,
}

spec fn gen_view(g: TacGen) -> TacState {
    TacState { code: instrs_view(g.code@), temp: g.temp as nat, label: g.label as nat, fns: g.fns@.map_values(|f: TacFunction| tac_fn_view(f)) }
}

fn unsupported(message: &str) -> (r: Error)
    ensures
        r matches Error::SimpleError { message: m } && m@ == message@,
{
    Error::SimpleError { message: String::from_str(message) }
}

fn fresh_temp(g: &mut TacGen) -> (r: Option<String>)
    ensures
        match use_temp(gen_view(*old(g))) {
            None => r is None,
            Some((t, st)) => r matches Some(x) && x@ == t && gen_view(*final(g)) == st,
        },
{
    if g.temp == usize::MAX {
        return None;
    }
    let t = numbered_name("t", g.temp);
    g.temp = g.temp + 1;
    Some(t)
}

fn fresh_label(g: &mut TacGen) -> (r: Option<String>)
    ensures
        match use_label(gen_view(*old(g))) {
            None => r is None,
            Some((t, st)) => r matches Some(x) && x@ == t && gen_view(*final(g)) == st,
        },
{
    if g.label == usize::MAX {
        return None;
    }
    let t = numbered_name("L", g.label);
    g.label = g.label + 1;
    Some(t)
}

fn emit_exec(g: &mut TacGen, i: TacInstruction)
    ensures
        gen_view(*final(g)) == emit(gen_view(*old(g)), instr_view(i)),
{
    let ghost before = g.code@;
    g.code.push(i);
    assert(instrs_view(g.code@) =~= instrs_view(before).push(instr_view(i)));
}

fn copy_value(v: &TacValue) -> (r: TacValue)
    ensures
        value_view(r) == value_view(*v),
{
    match v {
        TacValue::Constant(c) => TacValue::Constant(*c),
        TacValue::Variable(s) => TacValue::Variable(s.clone()),
        TacValue::StringLiteral(s) => TacValue::StringLiteral(s.clone()),
    }
}

fn too_many() -> (r: Error)
    ensures
        r matches Error::SimpleError { message } && message@ == "Too many temporaries or labels"@,
{
    Error::SimpleError { message: String::from_str("Too many temporaries or labels") }
}

/// The index of the first function instance with this name and these parameter types.
fn find_function(fns: &Vec<TacFunction>, name: &String, types: &Vec<Type>) -> (r: Option<usize>)
    ensures
        r matches Some(i) ==> find_tac_fn(fns@.map_values(|f: TacFunction| tac_fn_view(f)), name@, types@, 0) == Some(i as int) && i < fns@.len(),
        r is None ==> find_tac_fn(fns@.map_values(|f: TacFunction| tac_fn_view(f)), name@, types@, 0) is None,
{
    let ghost fv = fns@.map_values(|f: TacFunction| tac_fn_view(f));
    proof { lemma_find_tac_fn(fv, name@, types@, 0); }
    let mut i: usize = 0;
    while i < fns.len()
        invariant
            fv == fns@.map_values(|f: TacFunction| tac_fn_view(f)),
            i <= fns@.len(),
            find_tac_fn(fv, name@, types@, 0) == find_tac_fn(fv, name@, types@, i as int),
        decreases fns@.len() - i,
    {
        if fns[i].name == *name && types_equal(&fns[i].params, types) {
            return Some(i);
        }
        i = i + 1;
    }
    None
}

proof fn lemma_find_tac_fn(fns: Seq<TacFunctionView>, name: Seq<char>, types: Seq<Type>, i: int)
    ensures
        find_tac_fn(fns, name, types, i) matches Some(j) ==> i <= j < fns.len(),
    decreases fns.len() - i,
{
    if 0 <= i < fns.len() && !(fns[i].name == name && fns[i].params == types) {
        lemma_find_tac_fn(fns, name, types, i + 1);
    }
}

/// Generates code computing an expression.
fn gen_expr_exec(e: &RecExpr<Type>, g: &mut TacGen) -> (r: Result<TacValue, Error>)
    ensures
        match gen_expr(rec_view(*e), gen_view(*old(g))) {
            Err(m) => r matches Err(err) && err matches Error::SimpleError { message } && message@ == m,
            Ok((v, st)) => r matches Ok(x) && value_view(x) == v && gen_view(*final(g)) == st,
        },
    decreases rec_size(rec_view(*e)), 1nat,
{
    match &e.data {
        RecExprData::Number { number } => Ok(TacValue::Constant(*number)),
        RecExprData::String { value } => Ok(TacValue::StringLiteral(value.clone())),
        RecExprData::Variable { name } => Ok(TacValue::Variable(name.clone())),
        RecExprData::Boolean { value } => Ok(TacValue::Constant(if *value { 1 } else { 0 })),
        RecExprData::Add { left, right } => gen_binary_exec(BinOp::Add, &**left, &**right, g),
        RecExprData::Subtract { left, right } => gen_binary_exec(BinOp::Sub, &**left, &**right, g),
        RecExprData::Multiply { left, right } => gen_binary_exec(BinOp::Mul, &**left, &**right, g),
        RecExprData::Divide { left, right } => gen_binary_exec(BinOp::Div, &**left, &**right, g),
        RecExprData::Equals { left, right } => gen_binary_exec(BinOp::Eq, &**left, &**right, g),
        RecExprData::NotEquals { left, right } => gen_binary_exec(BinOp::Ne, &**left, &**right, g),
        RecExprData::LessThan { left, right } => gen_binary_exec(BinOp::Lt, &**left, &**right, g),
        RecExprData::LessThanOrEqual { left, right } => gen_binary_exec(BinOp::Le, &**left, &**right, g),
        RecExprData::GreaterThan { left, right } => gen_binary_exec(BinOp::Gt, &**left, &**right, g),
        RecExprData::GreaterThanOrEqual { left, right } => gen_binary_exec(BinOp::Ge, &**left, &**right, g),
        RecExprData::Or { left, right } => gen_binary_exec(BinOp::Or, &**left, &**right, g),
        RecExprData::And { left, right } => gen_binary_exec(BinOp::And, &**left, &**right, g),
        RecExprData::Not { right } => {
            let v = match gen_expr_exec(&**right, g) {
                Ok(v) => v,
                Err(err) => return Err(err),
            };
            let t = match fresh_temp(g) {
                Some(t) => t,
                None => return Err(too_many()),
            };
            let tv = t.clone();
            emit_exec(g, TacInstruction::UnaryOp(t, UnOp::Neg, v));
            Ok(TacValue::Variable(tv))
        },
        RecExprData::List { .. } => Err(unsupported("List expressions are not supported in TAC generation")),
        RecExprData::FunctionCall { function_name, args } => {
            let vals = match gen_args_exec(args, g) {
                Ok(v) => v,
                Err(err) => return Err(err),
            };
            let mut types: Vec<Type> = Vec::new();
            let mut k: usize = 0;
            proof { lemma_recs_view(args@); }
            while k < args.len()
                invariant
                    k <= args@.len(),
                    recs_view(args@).len() == args@.len(),
                    forall|j: int| 0 <= j < args@.len() ==> #[trigger] recs_view(args@)[j] == rec_view(args@[j]),
                    types@ == recs_view(args@).map_values(|a: RecExprView<Type>| a.generic_data).subrange(0, k as int),
                decreases args@.len() - k,
            {
                types.push(copy_type(&args[k].generic_data));
                assert(types@ =~= recs_view(args@).map_values(|a: RecExprView<Type>| a.generic_data).subrange(0, k + 1));
                k = k + 1;
            }
            assert(recs_view(args@).map_values(|a: RecExprView<Type>| a.generic_data).subrange(0, args@.len() as int)
                =~= recs_view(args@).map_values(|a: RecExprView<Type>| a.generic_data));
            let i = match find_function(&g.fns, function_name, &types) {
                Some(i) => i,
                None => {
                    let a = concat("Function '", function_name.as_str());
                    return Err(Error::SimpleError { message: concat(a.as_str(), "' with specified argument types not found") });
                },
            };
            let label = g.fns[i].label.clone();
            let returns_nothing = match g.fns[i].return_type {
                Type::Undefined => true,
                _ => false,
            };
            if returns_nothing {
                emit_exec(g, TacInstruction::Call(label, vals, None));
                Ok(TacValue::Variable(String::from_str("no_result")))
            } else {
                let t = match fresh_temp(g) {
                    Some(t) => t,
                    None => return Err(too_many()),
                };
                let tv = t.clone();
                emit_exec(g, TacInstruction::Call(label, vals, Some(t)));
                Ok(TacValue::Variable(tv))
            }
        },
        _ => {
            let t = debug_text(e);
            Err(Error::SimpleError { message: concat("Unsupported expression type ", t.as_str()) })
        },
    }
}

/// Generates code for both operands and the operation into a temporary.
fn gen_binary_exec(op: BinOp, l: &RecExpr<Type>, r: &RecExpr<Type>, g: &mut TacGen) -> (res: Result<TacValue, Error>)
    ensures
        match gen_binary(op, rec_view(*l), rec_view(*r), gen_view(*old(g))) {
            Err(m) => res matches Err(err) && err matches Error::SimpleError { message } && message@ == m,
            Ok((v, st)) => res matches Ok(x) && value_view(x) == v && gen_view(*final(g)) == st,
        },
    decreases 1 + rec_size(rec_view(*l)) + rec_size(rec_view(*r)), 0nat,
{
    let lv = match gen_expr_exec(l, g) {
        Ok(v) => v,
        Err(e) => return Err(e),
    };
    let rv = match gen_expr_exec(r, g) {
        Ok(v) => v,
        Err(e) => return Err(e),
    };
    let t = match fresh_temp(g) {
        Some(t) => t,
        None => return Err(too_many()),
    };
    let tv = t.clone();
    emit_exec(g, TacInstruction::BinOp(t, lv, op, rv));
    Ok(TacValue::Variable(tv))
}

proof fn lemma_gen_args_prefix(args: Seq<RecExprView<Type>>, st: TacState, k: int)
    requires
        0 <= k <= args.len(),
        gen_args(args.subrange(0, k), st) is Err,
    ensures
        gen_args(args, st) == gen_args(args.subrange(0, k), st),
    decreases args.len() - k,
{
    if k < args.len() {
        assert(args.drop_last().subrange(0, k) =~= args.subrange(0, k));
        lemma_gen_args_prefix(args.drop_last(), st, k);
    } else {
        assert(args.subrange(0, k) =~= args);
    }
}

/// Generates code for the arguments of a call, in order.
fn gen_args_exec(args: &Vec<RecExpr<Type>>, g: &mut TacGen) -> (r: Result<Vec<TacValue>, Error>)
    ensures
        match gen_args(recs_view(args@), gen_view(*old(g))) {
            Err(m) => r matches Err(err) && err matches Error::SimpleError { message } && message@ == m,
            Ok((vs, st)) => r matches Ok(x) && values_view(x@) == vs && gen_view(*final(g)) == st,
        },
    decreases recs_size(recs_view(args@)), 0nat,
{
    let ghost av = recs_view(args@);
    let ghost st0 = gen_view(*g);
    proof {
        lemma_recs_view(args@);
        lemma_recs_size(av);
    }
    let mut out: Vec<TacValue> = Vec::new();
    let mut i: usize = 0;
    assert(av.subrange(0, 0) =~= Seq::<RecExprView<Type>>::empty());
    assert(values_view(out@) =~= Seq::<TacValueView>::empty());
    while i < args.len()
        invariant
            i <= args@.len(),
            av == recs_view(args@),
            av.len() == args@.len(),
            forall|j: int| 0 <= j < args@.len() ==> #[trigger] av[j] == rec_view(args@[j]),
            forall|j: int| 0 <= j < args@.len() ==> rec_size(#[trigger] av[j]) < recs_size(av),
            st0 == gen_view(*old(g)),
            gen_args(av.subrange(0, i as int), st0) == Ok::<(Seq<TacValueView>, TacState), Seq<char>>((values_view(out@), gen_view(*g))),
        decreases args@.len() - i,
    {
        assert(av.subrange(0, i + 1).drop_last() =~= av.subrange(0, i as int));
        assert(av.subrange(0, i + 1).last() == av[i as int]);
        match gen_expr_exec(&args[i], g) {
            Ok(v) => {
                let ghost before = out@;
                out.push(v);
                assert(values_view(out@) =~= values_view(before).push(value_view(v)));
            },
            Err(e) => {
                proof { lemma_gen_args_prefix(av, st0, i + 1); }
                return Err(e);
            },
        }
        i = i + 1;
    }
    assert(av.subrange(0, args@.len() as int) =~= av);
    Ok(out)
}

proof fn lemma_gen_block_prefix(s: Seq<BaseExprView<Type>>, st: TacState, k: int)
    requires
        0 <= k <= s.len(),
        gen_block(s.subrange(0, k), st) is Err,
    ensures
        gen_block(s, st) == gen_block(s.subrange(0, k), st),
    decreases s.len() - k,
{
    if k < s.len() {
        assert(s.drop_last().subrange(0, k) =~= s.subrange(0, k));
        lemma_gen_block_prefix(s.drop_last(), st, k);
    } else {
        assert(s.subrange(0, k) =~= s);
    }
}

/// Generates code for statements in order.
fn gen_block_exec(s: &Vec<BaseExpr<Type>>, g: &mut TacGen) -> (r: Result<(), Error>)
    ensures
        match gen_block(bases_view(s@), gen_view(*old(g))) {
            Err(m) => r matches Err(err) && err matches Error::SimpleError { message } && message@ == m,
            Ok(st) => r is Ok && gen_view(*final(g)) == st,
        },
    decreases stmts_size(bases_view(s@)), 0nat,
{
    let ghost bv = bases_view(s@);
    let ghost st0 = gen_view(*g);
    proof {
        lemma_bases_view(s@);
        lemma_stmts_size(bv);
    }
    let mut i: usize = 0;
    assert(bv.subrange(0, 0) =~= Seq::<BaseExprView<Type>>::empty());
    while i < s.len()
        invariant
            i <= s@.len(),
            bv == bases_view(s@),
            bv.len() == s@.len(),
            forall|j: int| 0 <= j < s@.len() ==> #[trigger] bv[j] == base_view(s@[j]),
            forall|j: int| 0 <= j < s@.len() ==> stmt_size(#[trigger] bv[j]) < stmts_size(bv),
            st0 == gen_view(*old(g)),
            gen_block(bv.subrange(0, i as int), st0) == Ok::<TacState, Seq<char>>(gen_view(*g)),
        decreases s@.len() - i,
    {
        assert(bv.subrange(0, i + 1).drop_last() =~= bv.subrange(0, i as int));
        assert(bv.subrange(0, i + 1).last() == bv[i as int]);
        match gen_stmt_exec(&s[i], g) {
            Ok(()) => {},
            Err(e) => {
                proof { lemma_gen_block_prefix(bv, st0, i + 1); }
                return Err(e);
            },
        }
        i = i + 1;
    }
    assert(bv.subrange(0, s@.len() as int) =~= bv);
    Ok(())
}

spec fn typed_else_view(e: Option<Box<BaseExpr<Type>>>) -> Option<Box<BaseExprView<Type>>> {
    match e {
        Some(x) => Some(Box::new(base_view(*x))),
        None => None,
    }
}

/// Generates code for an `if` or `else if` statement.
fn gen_branch_exec(c: &RecExpr<Type>, body: &Vec<BaseExpr<Type>>, els: &Option<Box<BaseExpr<Type>>>, g: &mut TacGen) -> (r: Result<(), Error>)
    ensures
        match gen_branch(rec_view(*c), bases_view(body@), typed_else_view(*els), gen_view(*old(g))) {
            Err(m) => r matches Err(err) && err matches Error::SimpleError { message } && message@ == m,
            Ok(st) => r is Ok && gen_view(*final(g)) == st,
        },
    decreases 1 + rec_size(rec_view(*c)) + stmts_size(bases_view(body@)) + match typed_else_view(*els) {
        Some(x) => stmt_size(*x),
        None => 0,
    }, 0nat,
{
    let next = match fresh_label(g) {
        Some(l) => l,
        None => return Err(too_many()),
    };
    let end = match fresh_label(g) {
        Some(l) => l,
        None => return Err(too_many()),
    };
    let cv = match gen_expr_exec(c, g) {
        Ok(v) => v,
        Err(e) => return Err(e),
    };
    emit_exec(g, TacInstruction::If(cv, next.clone()));
    match gen_block_exec(body, g) {
        Ok(()) => {},
        Err(e) => return Err(e),
    }
    emit_exec(g, TacInstruction::Goto(end.clone()));
    emit_exec(g, TacInstruction::Label(next));
    match els {
        Some(x) => match gen_stmt_exec(&**x, g) {
            Ok(()) => {},
            Err(e) => return Err(e),
        },
        None => {},
    }
    emit_exec(g, TacInstruction::Label(end));
    Ok(())
}

/// Generates code for a statement.
fn gen_stmt_exec(b: &BaseExpr<Type>, g: &mut TacGen) -> (r: Result<(), Error>)
    ensures
        match gen_stmt(base_view(*b), gen_view(*old(g))) {
            Err(m) => r matches Err(err) && err matches Error::SimpleError { message } && message@ == m,
            Ok(st) => r is Ok && gen_view(*final(g)) == st,
        },
    decreases stmt_size(base_view(*b)), 1nat,
{
    match &b.data {
        BaseExprData::VariableAssignment { var_name, expr } => {
            let v = match gen_expr_exec(expr, g) {
                Ok(v) => v,
                Err(e) => return Err(e),
            };
            emit_exec(g, TacInstruction::Assign(var_name.clone(), v));
            Ok(())
        },
        BaseExprData::ForLoop { var_name, until, body } => {
            let start = match fresh_label(g) {
                Some(l) => l,
                None => return Err(too_many()),
            };
            let end = match fresh_label(g) {
                Some(l) => l,
                None => return Err(too_many()),
            };
            emit_exec(g, TacInstruction::Assign(var_name.clone(), TacValue::Constant(0)));
            emit_exec(g, TacInstruction::Label(start.clone()));
            let uv = match gen_expr_exec(until, g) {
                Ok(v) => v,
                Err(e) => return Err(e),
            };
            let cond = match fresh_temp(g) {
                Some(t) => t,
                None => return Err(too_many()),
            };
            emit_exec(g, TacInstruction::BinOp(cond.clone(), TacValue::Variable(var_name.clone()), BinOp::Lt, uv));
            emit_exec(g, TacInstruction::If(TacValue::Variable(cond), end.clone()));
            match gen_block_exec(body, g) {
                Ok(()) => {},
                Err(e) => return Err(e),
            }
            let inc = match fresh_temp(g) {
                Some(t) => t,
                None => return Err(too_many()),
            };
            emit_exec(g, TacInstruction::BinOp(inc.clone(), TacValue::Variable(var_name.clone()), BinOp::Add, TacValue::Constant(1)));
            emit_exec(g, TacInstruction::Assign(var_name.clone(), TacValue::Variable(inc)));
            emit_exec(g, TacInstruction::Goto(start));
            emit_exec(g, TacInstruction::Label(end));
            Ok(())
        },
        BaseExprData::Return { return_value } => match return_value {
            Some(e) => {
                let v = match gen_expr_exec(e, g) {
                    Ok(v) => v,
                    Err(err) => return Err(err),
                };
                emit_exec(g, TacInstruction::Return(Some(v)));
                Ok(())
            },
            None => {
                emit_exec(g, TacInstruction::Return(None));
                Ok(())
            },
        },
        BaseExprData::IfStatement { condition, body, else_statement } => gen_branch_exec(condition, body, else_statement, g),
        BaseExprData::ElseIfStatement { condition, body, else_statement } => gen_branch_exec(condition, body, else_statement, g),
        BaseExprData::ElseStatement { body } => gen_block_exec(body, g),
        _ => Ok(()),
    }
}

proof fn lemma_gen_functions_prefix(fs: Seq<FunctionTypeView>, st: TacState, k: int)
    requires
        0 <= k <= fs.len(),
        gen_functions(fs.subrange(0, k), st) is Err,
    ensures
        gen_functions(fs, st) == gen_functions(fs.subrange(0, k), st),
    decreases fs.len() - k,
{
    if k < fs.len() {
        assert(fs.drop_last().subrange(0, k) =~= fs.subrange(0, k));
        lemma_gen_functions_prefix(fs.drop_last(), st, k);
    } else {
        assert(fs.subrange(0, k) =~= fs);
    }
}

/// Generates three-address code for a typed program and its function instances: the
/// functions first, each under the label `func_<name>`, then the program's statements.
pub fn generate_tac(program: Vec<BaseExpr<Type>>, functions: Vec<FunctionType>) -> (r: Result<Vec<TacInstruction>, Error>)
    ensures
        match tac_program(bases_view(program@), fns_view(functions@)) {
            Err(m) => r matches Err(err) && err matches Error::SimpleError { message } && message@ == m,
            Ok(code) => r matches Ok(x) && instrs_view(x@) == code,
        },
{
    let mut g = TacGen { code: Vec::new(), temp: 0, label: 0, fns: Vec::new() };
    let ghost fv = fns_view(functions@);
    let ghost st0 = gen_view(g);
    assert(st0 == (TacState { code: seq![], temp: 0, label: 0, fns: seq![] })) by {
        assert(instrs_view(g.code@) =~= Seq::<TacInstrView>::empty());
        assert(g.fns@.map_values(|f: TacFunction| tac_fn_view(f)) =~= Seq::<TacFunctionView>::empty());
    }
    let mut i: usize = 0;
    assert(fv.subrange(0, 0) =~= Seq::<FunctionTypeView>::empty());
    while i < functions.len()
        invariant
            i <= functions@.len(),
            fv == fns_view(functions@),
            fv.len() == functions@.len(),
            st0 == (TacState { code: seq![], temp: 0, label: 0, fns: seq![] }),
            gen_functions(fv.subrange(0, i as int), st0) == Ok::<TacState, Seq<char>>(gen_view(g)),
        decreases functions@.len() - i,
    {
        let f = &functions[i];
        assert(fv[i as int] == fn_view(*f));
        assert(fv.subrange(0, i + 1).drop_last() =~= fv.subrange(0, i as int));
        assert(fv.subrange(0, i + 1).last() == fv[i as int]);
        let label = concat("func_", f.name.as_str());
        let ghost before = g.fns@;
        g.fns.push(TacFunction { name: f.name.clone(), params: copy_types(&f.param_types), return_type: copy_type(&f.return_type), label: label.clone() });
        assert(g.fns@.map_values(|x: TacFunction| tac_fn_view(x)) =~= before.map_values(|x: TacFunction| tac_fn_view(x)).push(TacFunctionView {
            name: f.name@,
            params: f.param_types@,
            return_type: f.return_type,
            label: fn_label(f.name@),
        }));
        emit_exec(&mut g, TacInstruction::FunctionLabel(label, copy_strings(&f.param_names)));
        match gen_block_exec(&f.content, &mut g) {
            Ok(()) => {},
            Err(e) => {
                proof { lemma_gen_functions_prefix(fv, st0, i + 1); }
                return Err(e);
            },
        }
        i = i + 1;
    }
    assert(fv.subrange(0, functions@.len() as int) =~= fv);
    match gen_block_exec(&program, &mut g) {
        Ok(()) => Ok(g.code),
        Err(e) => Err(e),
    }
}

} // verus!
