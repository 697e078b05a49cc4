//! Static types of the language and the type checker.
use vstd::prelude::*;
use vstd::std_specs::cmp::PartialEqSpecImpl;
use crate::tokenizer::Error;
use crate::parser::BaseExpr;
use crate::parser::BaseExprData;
use crate::parser::BaseExprView;
use crate::parser::BaseExprDataView;
use crate::parser::RecExpr;
use crate::parser::RecExprData;
use crate::parser::RecExprView;
use crate::parser::RecExprDataView;
use crate::parser::BinaryKind;
use crate::parser::rec_size;
use crate::parser::recs_size;
use crate::parser::stmt_size;
use crate::parser::stmts_size;
use crate::parser::lemma_recs_size;
use crate::parser::lemma_stmts_size;
use crate::parser::rec_view;
use crate::parser::base_view;
use crate::parser::bases_view;
use crate::parser::recs_view;
use crate::parser::strings_view;
use crate::parser::copy_strings;
use crate::parser::copy_base_exprs;
use crate::parser::lemma_bases_view;
use crate::parser::lemma_recs_view;
use crate::vecs::reversed;
use crate::text::concat;

verus! {

/// The static type of a value.
#[derive(Debug)]
pub enum Type {
    Undefined,
    Integer,
    Float,
    Boolean,
    String,
    List(Box<Type>),
}

/// Whether two types are the same.
pub fn type_equal(a: &Type, b: &Type) -> (r: bool)
    ensures
        r == (*a == *b),
    decreases a,
{
    match (a, b) {
        (Type::Undefined, Type::Undefined) => true,
        (Type::Integer, Type::Integer) => true,
        (Type::Float, Type::Float) => true,
        (Type::Boolean, Type::Boolean) => true,
        (Type::String, Type::String) => true,
        (Type::List(x), Type::List(y)) => type_equal(&**x, &**y),
        _ => false,
    }
}

/// A copy of a type.
pub fn copy_type(a: &Type) -> (r: Type)
    ensures
        r == *a,
    decreases a,
{
    match a {
        Type::Undefined => Type::Undefined,
        Type::Integer => Type::Integer,
        Type::Float => Type::Float,
        Type::Boolean => Type::Boolean,
        Type::String => Type::String,
        Type::List(x) => Type::List(Box::new(copy_type(&**x))),
    }
}

impl PartialEq for Type {
    fn eq(&self, other: &Self) -> (r: bool) {
        type_equal(self, other)
    }
}

impl Eq for Type {
}

impl Clone for Type {
    fn clone(&self) -> (r: Self)
        ensures
            r == *self,
    {
        copy_type(self)
    }
}

impl PartialEqSpecImpl for Type {
    open spec fn obeys_eq_spec() -> bool {
        true
    }

    open spec fn eq_spec(&self, other: &Self) -> bool {
        *self == *other
    }
}

/// How deep the type checker instantiates functions inside functions before it gives up:
/// the largest 64-bit number, a depth that the machine's stack gives out long before. A
/// function that calls itself is instantiated again at each level.
pub const INSTANTIATION_LIMIT: u64 = 0xFFFF_FFFF_FFFF_FFFF;

/// The mathematical content of a type-checked function instance.
pub struct FunctionTypeView {
    pub name: Seq<char>,
    pub param_names: Seq<Seq<char>>,
    pub param_types: Seq<Type>,
    pub return_type: Type,
    pub content: Seq<BaseExprView<Type>>,
}

/// The mathematical content of a function definition as written.
pub struct FunctionSourceView {
    pub name: Seq<char>,
    pub param_names: Seq<Seq<char>>,
    pub content: Seq<BaseExprView<()>>,
}

/// A type checking error, as the specification describes it.
pub enum TypeErrorView {
    /// An error with a message at a place in the source.
    Located(Seq<char>, int, int, int),
    /// An error with a message and without a place.
    Simple(Seq<char>),
    /// A type mismatch: the message, the expected and the found type, and the place.
    Mismatch(Seq<char>, Type, Type, int, int, int),
}

/// Whether an error is the one the specification describes.
pub open spec fn type_error_matches(e: Error, v: TypeErrorView) -> bool {
    match v {
        TypeErrorView::Located(m, r, a, b) => e.is_located(m, r, a, b),
        TypeErrorView::Simple(m) => e matches Error::SimpleError { message } && message@ == m,
        TypeErrorView::Mismatch(m, x, y, r, a, b) => e matches Error::TypeError { message, expected, found, row, col_start, col_end }
            && message@ == m && expected == x && found == y && row == r && col_start == a && col_end == b,
    }
}

/// The state of type checking: the variable scopes (innermost last), the function
/// instances checked so far, and the return type of the function being checked, once
/// a `return` statement has fixed it.
pub struct TcEnv {
    pub scopes: Seq<Seq<(Seq<char>, Type)>>,
    pub functions: Seq<FunctionTypeView>,
    pub ret: Option<Type>,
}

/// The index of the first binding of `name` in a scope, from index `i` on.
pub open spec fn first_binding(name: Seq<char>, scope: Seq<(Seq<char>, Type)>, i: int) -> Option<int>
    decreases scope.len() - i,
{
    if i < 0 || i >= scope.len() {
        None
    } else if scope[i].0 == name {
        Some(i)
    } else {
        first_binding(name, scope, i + 1)
    }
}

/// The type bound to `name` in the innermost scope that binds it.
pub open spec fn find_in_env(name: Seq<char>, scopes: Seq<Seq<(Seq<char>, Type)>>) -> Option<Type>
    decreases scopes.len(),
{
    if scopes.len() == 0 {
        None
    } else {
        match first_binding(name, scopes.last(), 0) {
            Some(i) => Some(scopes.last()[i].1),
            None => find_in_env(name, scopes.drop_last()),
        }
    }
}

/// The scope with the first binding of `name` set to `t`, or with a binding of `name`
/// to `t` added at its end.
pub open spec fn update_or_add(t: Type, name: Seq<char>, scope: Seq<(Seq<char>, Type)>) -> Seq<(Seq<char>, Type)> {
    match first_binding(name, scope, 0) {
        Some(i) => scope.update(i, (name, t)),
        None => scope.push((name, t)),
    }
}

/// The index of the first function instance with this name and these parameter types,
/// from index `i` on.
pub open spec fn find_instance(name: Seq<char>, types: Seq<Type>, fns: Seq<FunctionTypeView>, i: int) -> Option<int>
    decreases fns.len() - i,
{
    if i < 0 || i >= fns.len() {
        None
    } else if fns[i].name == name && fns[i].param_types == types {
        Some(i)
    } else {
        find_instance(name, types, fns, i + 1)
    }
}

/// The index of the first function definition with this name and `n` parameters, from
/// index `i` on.
pub open spec fn find_source(name: Seq<char>, n: nat, fenv: Seq<FunctionSourceView>, i: int) -> Option<int>
    decreases fenv.len() - i,
{
    if i < 0 || i >= fenv.len() {
        None
    } else if fenv[i].name == name && fenv[i].param_names.len() == n {
        Some(i)
    } else {
        find_source(name, n, fenv, i + 1)
    }
}

/// The scope that binds each parameter to its type, in order.
pub open spec fn params_scope(names: Seq<Seq<char>>, types: Seq<Type>) -> Seq<(Seq<char>, Type)> {
    Seq::new(names.len(), |i: int| (names[i], types[i]))
}

/// The types of typed expressions.
pub open spec fn types_of(ts: Seq<RecExprView<Type>>) -> Seq<Type> {
    ts.map_values(|t: RecExprView<Type>| t.generic_data)
}

/// The message of a variable that no scope binds.
pub open spec fn undefined_message(name: Seq<char>) -> Seq<char> {
    "Variable '"@ + name + "' is not defined"@
}

/// A typed expression node.
pub open spec fn typed_at(data: RecExprDataView<Type>, row: int, col_start: int, col_end: int, t: Type) -> RecExprView<Type> {
    RecExprView { data, row, col_start, col_end, generic_data: t }
}

/// Whether a type is a number type.
pub open spec fn is_numeric(t: Type) -> bool {
    t == Type::Integer || t == Type::Float
}

/// The type of an arithmetic operation on operands of these types, if it has one:
/// integers give an integer, other numbers a float, and two strings added a string.
pub open spec fn arith_type(k: BinaryKind, lt: Type, rt: Type) -> Option<Type> {
    if lt == Type::Integer && rt == Type::Integer {
        Some(Type::Integer)
    } else if is_numeric(lt) && is_numeric(rt) {
        Some(Type::Float)
    } else if k == BinaryKind::Add && lt == Type::String && rt == Type::String {
        Some(Type::String)
    } else {
        None
    }
}

/// Whether an operator is arithmetic.
pub open spec fn is_arith(k: BinaryKind) -> bool {
    k == BinaryKind::Add || k == BinaryKind::Subtract || k == BinaryKind::Multiply || k == BinaryKind::Divide || k == BinaryKind::Power
}

/// Whether an operator is `and` or `or`.
pub open spec fn is_logic(k: BinaryKind) -> bool {
    k == BinaryKind::Or || k == BinaryKind::And
}

/// Whether an operator is `==` or `!=`.
pub open spec fn is_equality(k: BinaryKind) -> bool {
    k == BinaryKind::Equals || k == BinaryKind::NotEquals
}

/// The word naming an arithmetic operation in messages.
pub open spec fn arith_word(k: BinaryKind) -> Seq<char> {
    match k {
        BinaryKind::Add => "addition"@,
        BinaryKind::Subtract => "subtraction"@,
        BinaryKind::Multiply => "multiplication"@,
        BinaryKind::Divide => "division"@,
        _ => "exponentiation"@,
    }
}

/// The message of a binary expression whose operands have types the operator does not
/// take.
pub open spec fn binary_message(k: BinaryKind) -> Seq<char> {
    if is_arith(k) {
        "Invalid operand types for "@ + arith_word(k)
    } else {
        match k {
            BinaryKind::Or => "Invalid operand types for logical OR"@,
            BinaryKind::And => "Invalid operand types for logical AND"@,
            BinaryKind::Equals => "Invalid operand types for equality check"@,
            BinaryKind::NotEquals => "Invalid operand types for inequality check"@,
            BinaryKind::GreaterThan => "Invalid operand types for greater-than check"@,
            BinaryKind::LessThan => "Invalid operand types for less-than check"@,
            BinaryKind::GreaterThanOrEqual => "Invalid operand types for greater-than-or-equal check"@,
            _ => "Invalid operand types for less-than-or-equal check"@,
        }
    }
}

/// The typed binary expression for typed operands `tl` and `tr` written at the given
/// places. It spans from the start of the left operand to the end of the right one, on
/// the left one's row.
pub open spec fn binary_outcome(
    k: BinaryKind,
    row: int,
    l_start: int,
    l_end: int,
    r_start: int,
    r_end: int,
    tl: RecExprView<Type>,
    tr: RecExprView<Type>,
) -> Result<RecExprView<Type>, TypeErrorView> {
    let lt = tl.generic_data;
    let rt = tr.generic_data;
    let node = |t: Type| typed_at(RecExprDataView::Binary(k, Box::new(tl), Box::new(tr)), row, l_start, r_end, t);
    if is_arith(k) {
        match arith_type(k, lt, rt) {
            Some(t) => Ok(node(t)),
            None => Err(TypeErrorView::Mismatch(binary_message(k), lt, rt, row, l_start, r_end)),
        }
    } else if is_logic(k) {
        if lt == Type::Boolean && rt == Type::Boolean {
            Ok(node(Type::Boolean))
        } else if lt != Type::Boolean {
            Err(TypeErrorView::Mismatch(binary_message(k), Type::Boolean, lt, row, l_start, l_end))
        } else {
            Err(TypeErrorView::Mismatch(binary_message(k), Type::Boolean, rt, row, r_start, r_end))
        }
    } else if is_equality(k) {
        if lt == rt {
            Ok(node(Type::Boolean))
        } else {
            Err(TypeErrorView::Mismatch(binary_message(k), lt, rt, row, l_start, r_end))
        }
    } else {
        if !is_numeric(lt) {
            Err(TypeErrorView::Mismatch(binary_message(k), Type::Integer, lt, row, l_start, l_end))
        } else if !is_numeric(rt) {
            Err(TypeErrorView::Mismatch(binary_message(k), Type::Integer, rt, row, r_start, r_end))
        } else {
            Ok(node(Type::Boolean))
        }
    }
}

/// `binary_outcome` for operands written as `l` and `r`, with the function instances
/// passed on.
pub open spec fn binary_result(
    k: BinaryKind,
    l: RecExprView<()>,
    r: RecExprView<()>,
    tl: RecExprView<Type>,
    tr: RecExprView<Type>,
    fns: Seq<FunctionTypeView>,
) -> Result<(RecExprView<Type>, Seq<FunctionTypeView>), TypeErrorView> {
    match binary_outcome(k, l.row, l.col_start, l.col_end, r.col_start, r.col_end, tl, tr) {
        Ok(x) => Ok((x, fns)),
        Err(e) => Err(e),
    }
}

/// Type checks an expression against the variable scopes, with the function instances
/// `fns` and the function definitions `fenv`; gives the typed expression and the
/// function instances afterwards. A call of a function with argument types that no
/// instance has type checks a new instance of its definition (at most `fuel` deep).
pub open spec fn check_rec(
    e: RecExprView<()>,
    scopes: Seq<Seq<(Seq<char>, Type)>>,
    fns: Seq<FunctionTypeView>,
    fenv: Seq<FunctionSourceView>,
    fuel: nat,
) -> Result<(RecExprView<Type>, Seq<FunctionTypeView>), TypeErrorView>
    decreases fuel, rec_size(e), 1nat,
{
    match e.data {
        RecExprDataView::Number(n) => Ok((typed_at(RecExprDataView::Number(n), e.row, e.col_start, e.col_end, Type::Integer), fns)),
        RecExprDataView::Boolean(b) => Ok((typed_at(RecExprDataView::Boolean(b), e.row, e.col_start, e.col_end, Type::Boolean), fns)),
        RecExprDataView::Str(v) => Ok((typed_at(RecExprDataView::Str(v), e.row, e.col_start, e.col_end, Type::String), fns)),
        RecExprDataView::List(els) => if els.len() == 0 {
            Ok((typed_at(RecExprDataView::List(seq![]), e.row, e.col_start, e.col_end, Type::List(Box::new(Type::Undefined))), fns))
        } else {
            match check_list(els, scopes, fns, fenv, fuel, true) {
                Ok((ts, f)) => Ok((typed_at(RecExprDataView::List(ts), e.row, e.col_start, e.col_end, Type::List(Box::new(ts[0].generic_data))), f)),
                Err(x) => Err(x),
            }
        },
        RecExprDataView::Binary(k, l, r) => check_binary(k, *l, *r, scopes, fns, fenv, fuel),
        RecExprDataView::Minus(x) => match check_rec(*x, scopes, fns, fenv, fuel) {
            Err(err) => Err(err),
            Ok((tx, f)) => if tx.generic_data == Type::Integer || tx.generic_data == Type::Float {
                Ok((typed_at(RecExprDataView::Minus(Box::new(tx)), x.row, x.col_start, x.col_end, tx.generic_data), f))
            } else {
                Err(TypeErrorView::Mismatch("Invalid operand type for negation"@, Type::Integer, tx.generic_data, x.row, x.col_start, x.col_end))
            },
        },
        RecExprDataView::Not(x) => match check_rec(*x, scopes, fns, fenv, fuel) {
            Err(err) => Err(err),
            Ok((tx, f)) => if tx.generic_data == Type::Boolean {
                Ok((typed_at(RecExprDataView::Not(Box::new(tx)), x.row, x.col_start, x.col_end, Type::Boolean), f))
            } else {
                Err(TypeErrorView::Mismatch("Invalid operand type for logical NOT"@, Type::Boolean, tx.generic_data, x.row, x.col_start, x.col_end))
            },
        },
        RecExprDataView::FunctionCall(name, args) => match check_list(args, scopes, fns, fenv, fuel, false) {
            Err(x) => Err(x),
            Ok((targs, f1)) => match find_fn(name, types_of(targs), f1, fenv, fuel) {
                Err(x) => Err(x),
                Ok((rt, f2)) => Ok((typed_at(RecExprDataView::FunctionCall(name, targs), e.row, e.col_start, e.col_end, rt), f2)),
            },
        },
        RecExprDataView::ListAccess(v, idx) => match find_in_env(v, scopes) {
            Some(Type::List(et)) => match check_rec(*idx, scopes, fns, fenv, fuel) {
                Err(x) => Err(x),
                Ok((ti, f)) => if ti.generic_data != Type::Integer {
                    Err(TypeErrorView::Mismatch("List index must be an integer"@, Type::Integer, ti.generic_data, idx.row, idx.col_start, idx.col_end))
                } else {
                    Ok((typed_at(RecExprDataView::ListAccess(v, Box::new(ti)), e.row, e.col_start, e.col_end, *et), f))
                },
            },
            Some(other) => Err(TypeErrorView::Mismatch("Variable '"@ + v + "' is of type "@ + type_text(other) + ", not a list"@, Type::List(Box::new(Type::Undefined)), other, e.row, e.col_start, e.col_end)),
            None => Err(TypeErrorView::Mismatch(undefined_message(v), Type::Undefined, Type::Undefined, e.row, e.col_start, e.col_end)),
        },
        RecExprDataView::Variable(n) => match find_in_env(n, scopes) {
            Some(t) => Ok((typed_at(RecExprDataView::Variable(n), e.row, e.col_start, e.col_end, t), fns)),
            None => Err(TypeErrorView::Mismatch(undefined_message(n), Type::Undefined, Type::Undefined, e.row, e.col_start, e.col_end)),
        },
        _ => Err(TypeErrorView::Simple("Expression kind not supported by the type checker"@)),
    }
}

/// Type checks the operands of a binary expression, left first, and then the
/// expression itself.
pub open spec fn check_binary(
    k: BinaryKind,
    l: RecExprView<()>,
    r: RecExprView<()>,
    scopes: Seq<Seq<(Seq<char>, Type)>>,
    fns: Seq<FunctionTypeView>,
    fenv: Seq<FunctionSourceView>,
    fuel: nat,
) -> Result<(RecExprView<Type>, Seq<FunctionTypeView>), TypeErrorView>
    decreases fuel, 1 + rec_size(l) + rec_size(r), 0nat,
{
    match check_rec(l, scopes, fns, fenv, fuel) {
        Err(x) => Err(x),
        Ok((tl, f1)) => match check_rec(r, scopes, f1, fenv, fuel) {
            Err(x) => Err(x),
            Ok((tr, f2)) => binary_result(k, l, r, tl, tr, f2),
        },
    }
}

/// Whether an operator is one of `<`, `>`, `<=` and `>=`.
pub open spec fn is_ordering(k: BinaryKind) -> bool {
    k == BinaryKind::GreaterThan || k == BinaryKind::LessThan || k == BinaryKind::GreaterThanOrEqual
        || k == BinaryKind::LessThanOrEqual
}

/// Once both operands of a comparison type check, to `tl` and `tr`: `<`, `>`, `<=` and
/// `>=` give a boolean exactly when both types are numbers, else an error that expects an
/// integer and finds the type of the first operand that is no number, at that operand's
/// place; `==` and `!=` give a boolean exactly when the two types are the same, else an
/// error that expects the left type, finds the right one and spans both operands.
pub proof fn lemma_comparison_types(
    e: RecExprView<()>,
    k: BinaryKind,
    l: RecExprView<()>,
    r: RecExprView<()>,
    scopes: Seq<Seq<(Seq<char>, Type)>>,
    fns: Seq<FunctionTypeView>,
    fenv: Seq<FunctionSourceView>,
    fuel: nat,
    tl: RecExprView<Type>,
    f1: Seq<FunctionTypeView>,
    tr: RecExprView<Type>,
    f2: Seq<FunctionTypeView>,
)
    requires
        is_ordering(k) || is_equality(k),
        e.data == RecExprDataView::Binary(k, Box::new(l), Box::new(r)),
        check_rec(l, scopes, fns, fenv, fuel) == Ok::<(RecExprView<Type>, Seq<FunctionTypeView>), TypeErrorView>((tl, f1)),
        check_rec(r, scopes, f1, fenv, fuel) == Ok::<(RecExprView<Type>, Seq<FunctionTypeView>), TypeErrorView>((tr, f2)),
    ensures
        ({
            let (lt, rt) = (tl.generic_data, tr.generic_data);
            let node = typed_at(RecExprDataView::Binary(k, Box::new(tl), Box::new(tr)), l.row, l.col_start, r.col_end, Type::Boolean);
            check_rec(e, scopes, fns, fenv, fuel) == if is_ordering(k) {
                if is_numeric(lt) && is_numeric(rt) {
                    Ok((node, f2))
                } else if !is_numeric(lt) {
                    Err(TypeErrorView::Mismatch(binary_message(k), Type::Integer, lt, l.row, l.col_start, l.col_end))
                } else {
                    Err(TypeErrorView::Mismatch(binary_message(k), Type::Integer, rt, l.row, r.col_start, r.col_end))
                }
            } else if lt == rt {
                Ok((node, f2))
            } else {
                Err(TypeErrorView::Mismatch(binary_message(k), lt, rt, l.row, l.col_start, r.col_end))
            }
        }),
{
    assert(check_rec(e, scopes, fns, fenv, fuel) == check_binary(k, l, r, scopes, fns, fenv, fuel));
    assert(check_binary(k, l, r, scopes, fns, fenv, fuel) == binary_result(k, l, r, tl, tr, f2));
}

/// Once both operands of `+`, `-`, `*`, `/` or `^` type check, to `tl` and `tr`: two
/// integers give an integer (whatever the operator), two numbers of which one is a float
/// give a float, two strings added give a string, and any other pair is an error that
/// expects the left type, finds the right one and spans both operands.
pub proof fn lemma_arithmetic_types(
    e: RecExprView<()>,
    k: BinaryKind,
    l: RecExprView<()>,
    r: RecExprView<()>,
    scopes: Seq<Seq<(Seq<char>, Type)>>,
    fns: Seq<FunctionTypeView>,
    fenv: Seq<FunctionSourceView>,
    fuel: nat,
    tl: RecExprView<Type>,
    f1: Seq<FunctionTypeView>,
    tr: RecExprView<Type>,
    f2: Seq<FunctionTypeView>,
)
    requires
        k == BinaryKind::Add || k == BinaryKind::Subtract || k == BinaryKind::Multiply || k == BinaryKind::Divide
            || k == BinaryKind::Power,
        e.data == RecExprDataView::Binary(k, Box::new(l), Box::new(r)),
        check_rec(l, scopes, fns, fenv, fuel) == Ok::<(RecExprView<Type>, Seq<FunctionTypeView>), TypeErrorView>((tl, f1)),
        check_rec(r, scopes, f1, fenv, fuel) == Ok::<(RecExprView<Type>, Seq<FunctionTypeView>), TypeErrorView>((tr, f2)),
    ensures
        ({
            let (lt, rt) = (tl.generic_data, tr.generic_data);
            let node = |t: Type| typed_at(RecExprDataView::Binary(k, Box::new(tl), Box::new(tr)), l.row, l.col_start, r.col_end, t);
            check_rec(e, scopes, fns, fenv, fuel) == if lt == Type::Integer && rt == Type::Integer {
                Ok((node(Type::Integer), f2))
            } else if (lt == Type::Integer || lt == Type::Float) && (rt == Type::Integer || rt == Type::Float) {
                Ok((node(Type::Float), f2))
            } else if k == BinaryKind::Add && lt == Type::String && rt == Type::String {
                Ok((node(Type::String), f2))
            } else {
                Err(TypeErrorView::Mismatch(binary_message(k), lt, rt, l.row, l.col_start, r.col_end))
            }
        }),
{
    assert(check_rec(e, scopes, fns, fenv, fuel) == check_binary(k, l, r, scopes, fns, fenv, fuel));
    assert(check_binary(k, l, r, scopes, fns, fenv, fuel) == binary_result(k, l, r, tl, tr, f2));
}

/// Once both operands of `and` or `or` type check, to `tl` and `tr`: two booleans give a
/// boolean; otherwise the error expects a boolean and finds the type of the first
/// operand that is not one, at that operand's place.
pub proof fn lemma_logic_types(
    e: RecExprView<()>,
    k: BinaryKind,
    l: RecExprView<()>,
    r: RecExprView<()>,
    scopes: Seq<Seq<(Seq<char>, Type)>>,
    fns: Seq<FunctionTypeView>,
    fenv: Seq<FunctionSourceView>,
    fuel: nat,
    tl: RecExprView<Type>,
    f1: Seq<FunctionTypeView>,
    tr: RecExprView<Type>,
    f2: Seq<FunctionTypeView>,
)
    requires
        k == BinaryKind::And || k == BinaryKind::Or,
        e.data == RecExprDataView::Binary(k, Box::new(l), Box::new(r)),
        check_rec(l, scopes, fns, fenv, fuel) == Ok::<(RecExprView<Type>, Seq<FunctionTypeView>), TypeErrorView>((tl, f1)),
        check_rec(r, scopes, f1, fenv, fuel) == Ok::<(RecExprView<Type>, Seq<FunctionTypeView>), TypeErrorView>((tr, f2)),
    ensures
        ({
            let (lt, rt) = (tl.generic_data, tr.generic_data);
            check_rec(e, scopes, fns, fenv, fuel) == if lt == Type::Boolean && rt == Type::Boolean {
                Ok((typed_at(RecExprDataView::Binary(k, Box::new(tl), Box::new(tr)), l.row, l.col_start, r.col_end, Type::Boolean), f2))
            } else if lt != Type::Boolean {
                Err(TypeErrorView::Mismatch(binary_message(k), Type::Boolean, lt, l.row, l.col_start, l.col_end))
            } else {
                Err(TypeErrorView::Mismatch(binary_message(k), Type::Boolean, rt, l.row, r.col_start, r.col_end))
            }
        }),
{
    assert(check_rec(e, scopes, fns, fenv, fuel) == check_binary(k, l, r, scopes, fns, fenv, fuel));
    assert(check_binary(k, l, r, scopes, fns, fenv, fuel) == binary_result(k, l, r, tl, tr, f2));
}

/// Type checks expressions in order, threading the function instances. With `same`,
/// each expression after the first must have the first one's type; an expression that
/// does not is an error at its place, with the first type expected.
pub open spec fn check_list(
    els: Seq<RecExprView<()>>,
    scopes: Seq<Seq<(Seq<char>, Type)>>,
    fns: Seq<FunctionTypeView>,
    fenv: Seq<FunctionSourceView>,
    fuel: nat,
    same: bool,
) -> Result<(Seq<RecExprView<Type>>, Seq<FunctionTypeView>), TypeErrorView>
    decreases fuel, recs_size(els), 0nat,
{
    if els.len() == 0 {
        Ok((seq![], fns))
    } else {
        proof {
            lemma_recs_size(els.drop_last());
            assert(recs_size(els) == recs_size(els.drop_last()) + rec_size(els.last()));
            assert(rec_size(els.last()) >= 1);
        }
        match check_list(els.drop_last(), scopes, fns, fenv, fuel, same) {
            Err(x) => Err(x),
            Ok((ts, f1)) => match check_rec(els.last(), scopes, f1, fenv, fuel) {
                Err(x) => Err(x),
                Ok((t, f2)) => if same && ts.len() > 0 && t.generic_data != ts[0].generic_data {
                    Err(TypeErrorView::Mismatch("List elements must be of the same type"@, ts[0].generic_data, t.generic_data, els.last().row, els.last().col_start, els.last().col_end))
                } else {
                    Ok((ts.push(t), f2))
                },
            },
        }
    }
}

/// The return type of the function instance for this name and these argument types,
/// and the function instances afterwards: an instance checked before, or a new one
/// checked from the first definition with that many parameters (which is then added).
pub open spec fn find_fn(
    name: Seq<char>,
    types: Seq<Type>,
    fns: Seq<FunctionTypeView>,
    fenv: Seq<FunctionSourceView>,
    fuel: nat,
) -> Result<(Type, Seq<FunctionTypeView>), TypeErrorView>
    decreases fuel, 0nat, 0nat,
{
    match find_instance(name, types, fns, 0) {
        Some(i) => Ok((fns[i].return_type, fns)),
        None => match find_source(name, types.len(), fenv, 0) {
            None => Err(TypeErrorView::Simple("Function '"@ + name + "' with parameter types "@ + ("["@ + types_joined(types) + "]"@) + " not found"@)),
            Some(j) => if fuel == 0 {
                Err(TypeErrorView::Simple("Function '"@ + name + "' is instantiated too deeply"@))
            } else {
                let src = fenv[j];
                let start = TcEnv { scopes: seq![params_scope(src.param_names, types)], functions: fns, ret: None };
                match tc(src.content, start, fenv, (fuel - 1) as nat) {
                    Err(x) => Err(x),
                    Ok((typed, env2)) => {
                        let rt = match env2.ret {
                            Some(t) => t,
                            None => Type::Undefined,
                        };
                        Ok((rt, fns.push(FunctionTypeView { name, param_names: src.param_names, param_types: types, return_type: rt, content: typed })))
                    },
                }
            },
        },
    }
}

/// Type checks statements in order from the state `env`; gives the typed statements and
/// the state afterwards.
pub open spec fn tc(
    s: Seq<BaseExprView<()>>,
    env: TcEnv,
    fenv: Seq<FunctionSourceView>,
    fuel: nat,
) -> Result<(Seq<BaseExprView<Type>>, TcEnv), TypeErrorView>
    decreases fuel, stmts_size(s), 0nat,
{
    if s.len() == 0 {
        Ok((seq![], env))
    } else {
        proof {
            lemma_stmts_size(s.drop_last());
            assert(stmts_size(s) == stmts_size(s.drop_last()) + stmt_size(s.last()));
            assert(stmt_size(s.last()) >= 1);
        }
        match tc(s.drop_last(), env, fenv, fuel) {
            Err(x) => Err(x),
            Ok((ts, env1)) => match stmt_step(s.last(), env1, fenv, fuel) {
                Err(x) => Err(x),
                Ok((o, env2)) => Ok((
                    match o {
                        Some(t) => ts.push(t),
                        None => ts,
                    },
                    env2,
                )),
            },
        }
    }
}

/// The state with its innermost scope dropped.
pub open spec fn pop_scope(env: TcEnv) -> TcEnv {
    TcEnv { scopes: env.scopes.drop_last(), ..env }
}

/// The state with a new scope added.
pub open spec fn push_scope(env: TcEnv, scope: Seq<(Seq<char>, Type)>) -> TcEnv {
    TcEnv { scopes: env.scopes.push(scope), ..env }
}

/// Type checks the parts of an `if` or `else if` statement: the condition, which must
/// be a boolean (else an error at its place), the body in a scope of its own, and the
/// `else` branch, if any, in a scope of its own.
pub open spec fn branch_step(
    c: RecExprView<()>,
    body: Seq<BaseExprView<()>>,
    els: Option<Box<BaseExprView<()>>>,
    env: TcEnv,
    fenv: Seq<FunctionSourceView>,
    fuel: nat,
) -> Result<(RecExprView<Type>, Seq<BaseExprView<Type>>, Option<Box<BaseExprView<Type>>>, TcEnv), TypeErrorView>
    decreases fuel, 1 + rec_size(c) + stmts_size(body) + match els {
        Some(x) => stmt_size(*x),
        None => 0,
    }, 0nat,
{
    match check_rec(c, env.scopes, env.functions, fenv, fuel) {
        Err(x) => Err(x),
        Ok((tcond, f1)) => if tcond.generic_data != Type::Boolean {
            Err(TypeErrorView::Mismatch("If condition must be of type Boolean"@, Type::Boolean, tcond.generic_data, c.row, c.col_start, c.col_end))
        } else {
            match tc(body, push_scope(TcEnv { functions: f1, ..env }, seq![]), fenv, fuel) {
                Err(x) => Err(x),
                Ok((tb, e2)) => match els {
                    None => Ok((tcond, tb, None, pop_scope(e2))),
                    Some(x) => match stmt_step(*x, push_scope(pop_scope(e2), seq![]), fenv, fuel) {
                        Err(err) => Err(err),
                        Ok((ox, e3)) => Ok((
                            tcond,
                            tb,
                            match ox {
                                Some(t) => Some(Box::new(t)),
                                None => None,
                            },
                            pop_scope(e3),
                        )),
                    },
                },
            }
        },
    }
}

/// Type checks one statement; gives its typed form (none for a function definition,
/// which is checked when called, and for `return` without a value) and the state
/// afterwards. Bodies are checked in a scope of their own.
pub open spec fn stmt_step(
    b: BaseExprView<()>,
    env: TcEnv,
    fenv: Seq<FunctionSourceView>,
    fuel: nat,
) -> Result<(Option<BaseExprView<Type>>, TcEnv), TypeErrorView>
    decreases fuel, stmt_size(b), 1nat,
{
    let at = |d: BaseExprDataView<Type>, t: Type| BaseExprView { data: d, row: b.row, col_start: b.col_start, col_end: b.col_end, generic_data: t };
    match b.data {
        BaseExprDataView::Simple(e) => match check_rec(e, env.scopes, env.functions, fenv, fuel) {
            Err(x) => Err(x),
            Ok((te, f)) => Ok((Some(at(BaseExprDataView::Simple(te), te.generic_data)), TcEnv { functions: f, ..env })),
        },
        BaseExprDataView::VariableAssignment(v, e) => match check_rec(e, env.scopes, env.functions, fenv, fuel) {
            Err(x) => Err(x),
            Ok((te, f)) => Ok((
                Some(at(BaseExprDataView::VariableAssignment(v, te), Type::Undefined)),
                TcEnv {
                    scopes: env.scopes.update(env.scopes.len() - 1, update_or_add(te.generic_data, v, env.scopes.last())),
                    functions: f,
                    ..env
                },
            )),
        },
        BaseExprDataView::FunctionDefinition(_, _, _) => Ok((None, env)),
        BaseExprDataView::If(c, body, els) => match branch_step(c, body, els, env, fenv, fuel) {
            Err(x) => Err(x),
            Ok((tcond, tb, tels, e2)) => Ok((Some(at(BaseExprDataView::If(tcond, tb, tels), Type::Undefined)), e2)),
        },
        BaseExprDataView::ElseIf(c, body, els) => match branch_step(c, body, els, env, fenv, fuel) {
            Err(x) => Err(x),
            Ok((tcond, tb, tels, e2)) => Ok((Some(at(BaseExprDataView::ElseIf(tcond, tb, tels), Type::Undefined)), e2)),
        },
        BaseExprDataView::Else(body) => match tc(body, push_scope(env, seq![]), fenv, fuel) {
            Err(x) => Err(x),
            Ok((tb, e2)) => Ok((Some(at(BaseExprDataView::Else(tb), Type::Undefined)), pop_scope(e2))),
        },
        BaseExprDataView::Return(None) => Ok((None, TcEnv { ret: Some(Type::Undefined), ..env })),
        BaseExprDataView::Return(Some(e)) => match check_rec(e, env.scopes, env.functions, fenv, fuel) {
            Err(x) => Err(x),
            Ok((te, f)) => {
                let rt = te.generic_data;
                let typed = Some(at(BaseExprDataView::Return(Some(te)), rt));
                match env.ret {
                    Some(expected) => if expected != rt {
                        Err(TypeErrorView::Mismatch("Return type does not match expected return type"@, expected, rt, e.row, e.col_start, e.col_end))
                    } else {
                        Ok((typed, TcEnv { functions: f, ..env }))
                    },
                    None => Ok((typed, TcEnv { functions: f, ret: Some(rt), ..env })),
                }
            },
        },
        BaseExprDataView::ForLoop(v, u, body) => match check_rec(u, env.scopes, env.functions, fenv, fuel) {
            Err(x) => Err(x),
            Ok((tu, f1)) => {
                let it = match tu.generic_data {
                    Type::Integer => Some(Type::Integer),
                    Type::List(t) => Some(*t),
                    _ => None,
                };
                match it {
                    None => Err(TypeErrorView::Located("For loop iteration cannot be of type "@ + type_text(tu.generic_data), u.row, u.col_start, u.col_end)),
                    Some(t) => match tc(body, push_scope(TcEnv { functions: f1, ..env }, seq![(v, t)]), fenv, fuel) {
                        Err(x) => Err(x),
                        Ok((tb, e2)) => Ok((Some(at(BaseExprDataView::ForLoop(v, tu, tb), Type::Undefined)), pop_scope(e2))),
                    },
                }
            },
        },
        BaseExprDataView::Break => Ok((Some(at(BaseExprDataView::Break, Type::Undefined)), env)),
        BaseExprDataView::PlusEquals(_, _) => Err(TypeErrorView::Simple("Statement kind not supported by the type checker"@)),
    }
}

/// Checking the parts of an `if` or `else if` statement leaves as many scopes as it found.
proof fn lemma_branch_scopes(
    c: RecExprView<()>,
    body: Seq<BaseExprView<()>>,
    els: Option<Box<BaseExprView<()>>>,
    env: TcEnv,
    fenv: Seq<FunctionSourceView>,
    fuel: nat,
)
    requires
        env.scopes.len() > 0,
    ensures
        branch_step(c, body, els, env, fenv, fuel) matches Ok((_, _, _, e2)) ==> e2.scopes.len() == env.scopes.len(),
    decreases fuel, 1 + rec_size(c) + stmts_size(body) + match els {
        Some(x) => stmt_size(*x),
        None => 0,
    }, 0nat,
{
    if let Ok((tcond, f1)) = check_rec(c, env.scopes, env.functions, fenv, fuel) {
        let e1 = push_scope(TcEnv { functions: f1, ..env }, seq![]);
        lemma_tc_scopes(body, e1, fenv, fuel);
        if let Ok((tb, e2)) = tc(body, e1, fenv, fuel) {
            if let Some(x) = els {
                lemma_step_scopes(*x, push_scope(pop_scope(e2), seq![]), fenv, fuel);
            }
        }
    }
}

/// Checking a statement leaves as many scopes as it found.
proof fn lemma_step_scopes(b: BaseExprView<()>, env: TcEnv, fenv: Seq<FunctionSourceView>, fuel: nat)
    requires
        env.scopes.len() > 0,
    ensures
        stmt_step(b, env, fenv, fuel) matches Ok((_, e2)) ==> e2.scopes.len() == env.scopes.len(),
    decreases fuel, stmt_size(b), 1nat,
{
    match b.data {
        BaseExprDataView::If(c, body, els) => lemma_branch_scopes(c, body, els, env, fenv, fuel),
        BaseExprDataView::ElseIf(c, body, els) => lemma_branch_scopes(c, body, els, env, fenv, fuel),
        BaseExprDataView::Else(body) => {
            lemma_tc_scopes(body, push_scope(env, seq![]), fenv, fuel);
        },
        BaseExprDataView::ForLoop(v, u, body) => {
            if let Ok((tu, f1)) = check_rec(u, env.scopes, env.functions, fenv, fuel) {
                let it = match tu.generic_data {
                    Type::Integer => Some(Type::Integer),
                    Type::List(t) => Some(*t),
                    _ => None,
                };
                if let Some(t) = it {
                    lemma_tc_scopes(body, push_scope(TcEnv { functions: f1, ..env }, seq![(v, t)]), fenv, fuel);
                }
            }
        },
        _ => {},
    }
}

/// Checking statements leaves as many scopes as it found.
proof fn lemma_tc_scopes(s: Seq<BaseExprView<()>>, env: TcEnv, fenv: Seq<FunctionSourceView>, fuel: nat)
    requires
        env.scopes.len() > 0,
    ensures
        tc(s, env, fenv, fuel) matches Ok((_, e2)) ==> e2.scopes.len() == env.scopes.len(),
    decreases fuel, stmts_size(s), 0nat,
{
    if s.len() > 0 {
        lemma_stmts_size(s.drop_last());
        assert(stmts_size(s) == stmts_size(s.drop_last()) + stmt_size(s.last()));
        lemma_tc_scopes(s.drop_last(), env, fenv, fuel);
        if let Ok((ts, env1)) = tc(s.drop_last(), env, fenv, fuel) {
            lemma_step_scopes(s.last(), env1, fenv, fuel);
        }
    }
}

/// A variable and its type.
struct TypeBinding {
    name: String,
    value_type: Type,
}

/// A function definition as written: its name, parameter names and body.
struct FunctionBinding {
    name: String,
    param_names: Vec<String>,
    content: Vec<BaseExpr<()>>,
}

/// A type-checked instance of a function: its parameter types, return type and typed
/// body.
#[derive(PartialEq, Debug)]
pub struct FunctionType {
    pub name: String,
    pub param_names: Vec<String>,
    pub param_types: Vec<Type>,
    pub return_type: Type,
    pub content: Vec<BaseExpr<Type>>,
}

/// The variable scopes (innermost last) and the function instances checked so far.
struct TypeEnvironment {
    scopes: Vec<Vec<TypeBinding>>,
    functions: Vec<FunctionType>,
}

spec fn binding_view(b: TypeBinding) -> (Seq<char>, Type) {
    (b.name@, b.value_type)
}

spec fn scope_view(s: Seq<TypeBinding>) -> Seq<(Seq<char>, Type)> {
    s.map_values(|b: TypeBinding| binding_view(b))
}

spec fn scopes_view(s: Seq<Vec<TypeBinding>>) -> Seq<Seq<(Seq<char>, Type)>> {
    s.map_values(|v: Vec<TypeBinding>| scope_view(v@))
}

/// The view of a function instance.
pub open spec fn fn_view(f: FunctionType) -> FunctionTypeView {
    FunctionTypeView {
        name: f.name@,
        param_names: strings_view(f.param_names@),
        param_types: f.param_types@,
        return_type: f.return_type,
        content: bases_view(f.content@),
    }
}

/// The views of function instances.
pub open spec fn fns_view(s: Seq<FunctionType>) -> Seq<FunctionTypeView> {
    s.map_values(|f: FunctionType| fn_view(f))
}

impl View for FunctionType {
    type V = FunctionTypeView;

    open spec fn view(&self) -> FunctionTypeView {
        fn_view(*self)
    }
}

spec fn source_view(b: FunctionBinding) -> FunctionSourceView {
    FunctionSourceView { name: b.name@, param_names: strings_view(b.param_names@), content: bases_view(b.content@) }
}

spec fn sources_view(s: Seq<FunctionBinding>) -> Seq<FunctionSourceView> {
    s.map_values(|b: FunctionBinding| source_view(b))
}

spec fn env_view(env: TypeEnvironment, ret: Option<Type>) -> TcEnv {
    TcEnv { scopes: scopes_view(env.scopes@), functions: fns_view(env.functions@), ret }
}

/// Whether two lists of types are equal.
pub fn types_equal(a: &Vec<Type>, b: &Vec<Type>) -> (r: bool)
    ensures
        r == (a@ == b@),
{
    if a.len() != b.len() {
        return false;
    }
    let mut i: usize = 0;
    while i < a.len()
        invariant
            a@.len() == b@.len(),
            i <= a@.len(),
            forall|j: int| 0 <= j < i ==> a@[j] == b@[j],
        decreases a@.len() - i,
    {
        if !type_equal(&a[i], &b[i]) {
            return false;
        }
        i = i + 1;
    }
    assert(a@ =~= b@);
    true
}

/// A copy of a list of types.
pub fn copy_types(v: &Vec<Type>) -> (r: Vec<Type>)
    ensures
        r@ == v@,
{
    let mut r: Vec<Type> = Vec::new();
    let mut i: usize = 0;
    while i < v.len()
        invariant
            i <= v@.len(),
            r@ == v@.subrange(0, i as int),
        decreases v@.len() - i,
    {
        r.push(copy_type(&v[i]));
        i = i + 1;
    }
    assert(v@.subrange(0, v@.len() as int) =~= v@);
    r
}

/// A copy of a function instance.
fn copy_function_type(f: &FunctionType) -> (r: FunctionType)
    ensures
        fn_view(r) == fn_view(*f),
{
    FunctionType {
        name: f.name.clone(),
        param_names: copy_strings(&f.param_names),
        param_types: copy_types(&f.param_types),
        return_type: copy_type(&f.return_type),
        content: copy_base_exprs(&f.content),
    }
}

/// A copy of a list of function instances.
fn copy_function_types(v: &Vec<FunctionType>) -> (r: Vec<FunctionType>)
    ensures
        fns_view(r@) == fns_view(v@),
{
    let mut r: Vec<FunctionType> = Vec::new();
    let mut i: usize = 0;
    while i < v.len()
        invariant
            i <= v@.len(),
            r@.len() == i,
            fns_view(r@) == fns_view(v@.subrange(0, i as int)),
        decreases v@.len() - i,
    {
        let c = copy_function_type(&v[i]);
        let ghost before = r@;
        r.push(c);
        assert forall|j: int| 0 <= j < i + 1 implies #[trigger] fns_view(r@)[j] == fns_view(v@.subrange(0, i + 1))[j] by {
            assert(fns_view(r@)[j] == fn_view(r@[j]));
            assert(fns_view(v@.subrange(0, i + 1))[j] == fn_view(v@[j]));
            if j < i {
                assert(fns_view(before)[j] == fns_view(v@.subrange(0, i as int))[j]);
                assert(fns_view(before)[j] == fn_view(before[j]));
                assert(fns_view(v@.subrange(0, i as int))[j] == fn_view(v@[j]));
            }
        }
        assert(fns_view(r@) =~= fns_view(v@.subrange(0, i + 1)));
        i = i + 1;
    }
    assert(v@.subrange(0, v@.len() as int) =~= v@);
    r
}

/// A binding that `first_binding` finds is in range and binds the name.
proof fn lemma_first_binding(name: Seq<char>, scope: Seq<(Seq<char>, Type)>, i: int)
    ensures
        first_binding(name, scope, i) matches Some(j) ==> i <= j < scope.len() && scope[j].0 == name,
    decreases scope.len() - i,
{
    if 0 <= i < scope.len() && scope[i].0 != name {
        lemma_first_binding(name, scope, i + 1);
    }
}

/// An instance that `find_instance` finds is in range and has the name and types.
proof fn lemma_find_instance(name: Seq<char>, types: Seq<Type>, fns: Seq<FunctionTypeView>, i: int)
    ensures
        find_instance(name, types, fns, i) matches Some(j) ==> i <= j < fns.len() && fns[j].name == name && fns[j].param_types == types,
    decreases fns.len() - i,
{
    if 0 <= i < fns.len() && !(fns[i].name == name && fns[i].param_types == types) {
        lemma_find_instance(name, types, fns, i + 1);
    }
}

/// A definition that `find_source` finds is in range and has the name and arity.
proof fn lemma_find_source(name: Seq<char>, n: nat, fenv: Seq<FunctionSourceView>, i: int)
    ensures
        find_source(name, n, fenv, i) matches Some(j) ==> i <= j < fenv.len() && fenv[j].name == name && fenv[j].param_names.len() == n,
    decreases fenv.len() - i,
{
    if 0 <= i < fenv.len() && !(fenv[i].name == name && fenv[i].param_names.len() == n) {
        lemma_find_source(name, n, fenv, i + 1);
    }
}

/// The index of the first binding of `name` in a scope.
fn first_binding_index(name: &String, scope: &Vec<TypeBinding>) -> (r: Option<usize>)
    ensures
        r matches Some(i) ==> first_binding(name@, scope_view(scope@), 0) == Some(i as int) && i < scope@.len() && scope@[i as int].name@ == name@,
        r is None ==> first_binding(name@, scope_view(scope@), 0) is None,
{
    proof { lemma_first_binding(name@, scope_view(scope@), 0); }
    let ghost sv = scope_view(scope@);
    let mut i: usize = 0;
    while i < scope.len()
        invariant
            sv == scope_view(scope@),
            i <= scope@.len(),
            first_binding(name@, sv, 0) == first_binding(name@, sv, i as int),
        decreases scope@.len() - i,
    {
        if scope[i].name == *name {
            return Some(i);
        }
        i = i + 1;
    }
    None
}

/// The type of `name` in the innermost scope that binds it.
fn find_in_env_exec(name: &String, env: &TypeEnvironment) -> (r: Option<Type>)
    ensures
        r == find_in_env(name@, scopes_view(env.scopes@)),
{
    let ghost sv = scopes_view(env.scopes@);
    let mut i: usize = env.scopes.len();
    assert(sv.subrange(0, i as int) =~= sv);
    while i > 0
        invariant
            sv == scopes_view(env.scopes@),
            i <= env.scopes@.len(),
            find_in_env(name@, sv) == find_in_env(name@, sv.subrange(0, i as int)),
        decreases i,
    {
        let scope = &env.scopes[i - 1];
        assert(sv.subrange(0, i as int).last() == scope_view(scope@));
        assert(sv.subrange(0, i as int).drop_last() =~= sv.subrange(0, i - 1));
        match first_binding_index(name, scope) {
            Some(j) => {
                return Some(copy_type(&scope[j].value_type));
            },
            None => {},
        }
        i = i - 1;
    }
    None
}

/// Sets the first binding of `name` in the scope to `value`, or adds one at its end.
fn update_or_add_in_scope(value: &Type, name: &String, scope: &mut Vec<TypeBinding>)
    ensures
        scope_view(final(scope)@) == update_or_add(*value, name@, scope_view(old(scope)@)),
{
    match first_binding_index(name, scope) {
        Some(i) => {
            let b = TypeBinding { name: name.clone(), value_type: copy_type(value) };
            scope.set(i, b);
            assert(scope_view(scope@) =~= update_or_add(*value, name@, scope_view(old(scope)@)));
        },
        None => {
            scope.push(TypeBinding { name: name.clone(), value_type: copy_type(value) });
            assert(scope_view(scope@) =~= update_or_add(*value, name@, scope_view(old(scope)@)));
        },
    }
}

/// The index of the first function instance with this name and these parameter types.
fn find_instance_index(name: &String, types: &Vec<Type>, fns: &Vec<FunctionType>) -> (r: Option<usize>)
    ensures
        r matches Some(i) ==> find_instance(name@, types@, fns_view(fns@), 0) == Some(i as int) && i < fns@.len(),
        r is None ==> find_instance(name@, types@, fns_view(fns@), 0) is None,
{
    proof { lemma_find_instance(name@, types@, fns_view(fns@), 0); }
    let ghost fv = fns_view(fns@);
    let mut i: usize = 0;
    while i < fns.len()
        invariant
            fv == fns_view(fns@),
            i <= fns@.len(),
            find_instance(name@, types@, fv, 0) == find_instance(name@, types@, fv, i as int),
        decreases fns@.len() - i,
    {
        if fns[i].name == *name && types_equal(&fns[i].param_types, types) {
            return Some(i);
        }
        i = i + 1;
    }
    None
}

/// The index of the first function definition with this name and `n` parameters.
fn find_source_index(name: &String, n: usize, func_env: &Vec<FunctionBinding>) -> (r: Option<usize>)
    ensures
        r matches Some(i) ==> find_source(name@, n as nat, sources_view(func_env@), 0) == Some(i as int) && i < func_env@.len()
            && func_env@[i as int].param_names@.len() == n,
        r is None ==> find_source(name@, n as nat, sources_view(func_env@), 0) is None,
{
    proof { lemma_find_source(name@, n as nat, sources_view(func_env@), 0); }
    let ghost fv = sources_view(func_env@);
    let mut i: usize = 0;
    while i < func_env.len()
        invariant
            fv == sources_view(func_env@),
            i <= func_env@.len(),
            find_source(name@, n as nat, fv, 0) == find_source(name@, n as nat, fv, i as int),
        decreases func_env@.len() - i,
    {
        if func_env[i].name == *name && func_env[i].param_names.len() == n {
            return Some(i);
        }
        i = i + 1;
    }
    None
}

/// How a type is written in messages.
pub open spec fn type_text(t: Type) -> Seq<char>
    decreases t,
{
    match t {
        Type::Undefined => "Undefined"@,
        Type::Integer => "Integer"@,
        Type::Float => "Float"@,
        Type::Boolean => "Boolean"@,
        Type::String => "String"@,
        Type::List(x) => "List("@ + type_text(*x) + ")"@,
    }
}

/// Writes a type as messages show it.
pub fn type_to_string(t: &Type) -> (r: String)
    ensures
        r@ == type_text(*t),
    decreases t,
{
    match t {
        Type::Undefined => String::from_str("Undefined"),
        Type::Integer => String::from_str("Integer"),
        Type::Float => String::from_str("Float"),
        Type::Boolean => String::from_str("Boolean"),
        Type::String => String::from_str("String"),
        Type::List(x) => {
            let inner = type_to_string(&**x);
            let a = concat("List(", inner.as_str());
            concat(a.as_str(), ")")
        },
    }
}

/// Types separated by commas, as messages show them.
pub open spec fn types_joined(v: Seq<Type>) -> Seq<char>
    decreases v.len(),
{
    if v.len() == 0 {
        seq![]
    } else if v.len() == 1 {
        type_text(v[0])
    } else {
        types_joined(v.drop_last()) + ", "@ + type_text(v.last())
    }
}

/// Writes a list of types as messages show it: in brackets, separated by commas.
fn types_to_string(v: &Vec<Type>) -> (r: String)
    ensures
        r@ == "["@ + types_joined(v@) + "]"@,
{
    let mut r = String::from_str("[");
    let mut i: usize = 0;
    assert(v@.subrange(0, 0) =~= Seq::<Type>::empty());
    while i < v.len()
        invariant
            i <= v@.len(),
            r@ == "["@ + types_joined(v@.subrange(0, i as int)),
        decreases v@.len() - i,
    {
        assert(v@.subrange(0, i + 1).drop_last() =~= v@.subrange(0, i as int));
        assert(v@.subrange(0, i + 1).last() == v@[i as int]);
        if i > 0 {
            r = concat(r.as_str(), ", ");
        } else {
            assert(v@.subrange(0, 1)[0] == v@[0]);
        }
        let t = type_to_string(&v[i]);
        r = concat(r.as_str(), t.as_str());
        i = i + 1;
    }
    assert(v@.subrange(0, v@.len() as int) =~= v@);
    concat(r.as_str(), "]")
}

/// Whether an expression holds no assignment or field access expression, which the type
/// checker does not handle.
pub open spec fn expr_checkable(e: RecExprView<()>) -> bool
    decreases e,
{
    match e.data {
        RecExprDataView::Assign(_, _) => false,
        RecExprDataView::Access(_, _) => false,
        RecExprDataView::Binary(_, l, r) => expr_checkable(*l) && expr_checkable(*r),
        RecExprDataView::Minus(x) => expr_checkable(*x),
        RecExprDataView::Not(x) => expr_checkable(*x),
        RecExprDataView::ListAccess(_, i) => expr_checkable(*i),
        RecExprDataView::FunctionCall(_, args) => exprs_checkable(args),
        RecExprDataView::List(els) => exprs_checkable(els),
        _ => true,
    }
}

/// Whether every expression is checkable.
pub open spec fn exprs_checkable(s: Seq<RecExprView<()>>) -> bool
    decreases s,
{
    if s.len() == 0 {
        true
    } else {
        exprs_checkable(s.drop_last()) && expr_checkable(s.last())
    }
}

/// Whether a statement can be an `else` branch: one that type checking gives a typed
/// statement for.
pub open spec fn else_kind_ok(b: BaseExprView<()>) -> bool {
    match b.data {
        BaseExprDataView::FunctionDefinition(_, _, _) => false,
        BaseExprDataView::Return(None) => false,
        _ => true,
    }
}

/// Whether the type checker handles a statement: no `+=` statement (desugaring removes
/// them), only checkable expressions, and `else` branches of a kind that gives a typed
/// statement, at every depth.
pub open spec fn stmt_checkable(b: BaseExprView<()>) -> bool
    decreases b,
{
    match b.data {
        BaseExprDataView::PlusEquals(_, _) => false,
        BaseExprDataView::Simple(e) => expr_checkable(e),
        BaseExprDataView::VariableAssignment(_, e) => expr_checkable(e),
        BaseExprDataView::If(c, body, els) => expr_checkable(c) && stmts_checkable(body) && match els {
            Some(x) => stmt_checkable(*x) && else_kind_ok(*x),
            None => true,
        },
        BaseExprDataView::ElseIf(c, body, els) => expr_checkable(c) && stmts_checkable(body) && match els {
            Some(x) => stmt_checkable(*x) && else_kind_ok(*x),
            None => true,
        },
        BaseExprDataView::Else(body) => stmts_checkable(body),
        BaseExprDataView::ForLoop(_, u, body) => expr_checkable(u) && stmts_checkable(body),
        BaseExprDataView::FunctionDefinition(_, _, body) => stmts_checkable(body),
        BaseExprDataView::Return(Some(e)) => expr_checkable(e),
        BaseExprDataView::Return(None) => true,
        BaseExprDataView::Break => true,
    }
}

/// Whether every statement is checkable.
pub open spec fn stmts_checkable(s: Seq<BaseExprView<()>>) -> bool
    decreases s,
{
    if s.len() == 0 {
        true
    } else {
        stmts_checkable(s.drop_last()) && stmt_checkable(s.last())
    }
}

/// Whether every function body is checkable.
pub open spec fn sources_checkable(fenv: Seq<FunctionSourceView>) -> bool {
    forall|i: int| 0 <= i < fenv.len() ==> stmts_checkable(#[trigger] fenv[i].content)
}

/// Each expression of a checkable sequence is checkable; so is each prefix.
proof fn lemma_exprs_checkable(s: Seq<RecExprView<()>>)
    requires
        exprs_checkable(s),
    ensures
        forall|i: int| 0 <= i < s.len() ==> expr_checkable(#[trigger] s[i]),
    decreases s.len(),
{
    if s.len() > 0 {
        lemma_exprs_checkable(s.drop_last());
        assert forall|i: int| 0 <= i < s.len() implies expr_checkable(#[trigger] s[i]) by {
            if i < s.len() - 1 {
                assert(s[i] == s.drop_last()[i]);
            }
        }
    }
}

/// Each statement of a checkable sequence is checkable.
proof fn lemma_stmts_checkable(s: Seq<BaseExprView<()>>)
    requires
        stmts_checkable(s),
    ensures
        forall|i: int| 0 <= i < s.len() ==> stmt_checkable(#[trigger] s[i]),
    decreases s.len(),
{
    if s.len() > 0 {
        lemma_stmts_checkable(s.drop_last());
        assert forall|i: int| 0 <= i < s.len() implies stmt_checkable(#[trigger] s[i]) by {
            if i < s.len() - 1 {
                assert(s[i] == s.drop_last()[i]);
            }
        }
    }
}

/// Builds the typed binary expression for typed operands; `l_*` and `r_*` are the
/// places of the operands as written.
fn binary_typed(
    k: BinaryKind,
    row: usize,
    l_start: usize,
    l_end: usize,
    r_start: usize,
    r_end: usize,
    tl: RecExpr<Type>,
    tr: RecExpr<Type>,
) -> (r: Result<RecExpr<Type>, Error>)
    ensures
        match binary_outcome(k, row as int, l_start as int, l_end as int, r_start as int, r_end as int, rec_view(tl), rec_view(tr)) {
            Ok(x) => r matches Ok(y) && rec_view(y) == x,
            Err(v) => r matches Err(e) && type_error_matches(e, v),
        },
{
    let lt = copy_type(&tl.generic_data);
    let rt = copy_type(&tr.generic_data);
    let lnum = type_equal(&lt, &Type::Integer) || type_equal(&lt, &Type::Float);
    let rnum = type_equal(&rt, &Type::Integer) || type_equal(&rt, &Type::Float);
    let arith = match k {
        BinaryKind::Add | BinaryKind::Subtract | BinaryKind::Multiply | BinaryKind::Divide | BinaryKind::Power => true,
        _ => false,
    };
    let logic = match k {
        BinaryKind::Or | BinaryKind::And => true,
        _ => false,
    };
    let equality = match k {
        BinaryKind::Equals | BinaryKind::NotEquals => true,
        _ => false,
    };
    let t: Type;
    if arith {
        if type_equal(&lt, &Type::Integer) && type_equal(&rt, &Type::Integer) {
            t = Type::Integer;
        } else if lnum && rnum {
            t = Type::Float;
        } else if k == BinaryKind::Add && type_equal(&lt, &Type::String) && type_equal(&rt, &Type::String) {
            t = Type::String;
        } else {
            let what = match k {
                BinaryKind::Add => "addition",
                BinaryKind::Subtract => "subtraction",
                BinaryKind::Multiply => "multiplication",
                BinaryKind::Divide => "division",
                _ => "exponentiation",
            };
            return Err(Error::TypeError {
                message: concat("Invalid operand types for ", what),
                expected: lt,
                found: rt,
                row,
                col_start: l_start,
                col_end: r_end,
            });
        }
    } else if logic {
        let what = if k == BinaryKind::Or { "Invalid operand types for logical OR" } else { "Invalid operand types for logical AND" };
        if type_equal(&lt, &Type::Boolean) && type_equal(&rt, &Type::Boolean) {
            t = Type::Boolean;
        } else if !type_equal(&lt, &Type::Boolean) {
            return Err(Error::TypeError { message: String::from_str(what), expected: Type::Boolean, found: lt, row, col_start: l_start, col_end: l_end });
        } else {
            return Err(Error::TypeError { message: String::from_str(what), expected: Type::Boolean, found: rt, row, col_start: r_start, col_end: r_end });
        }
    } else if equality {
        if type_equal(&lt, &rt) {
            t = Type::Boolean;
        } else {
            let what = if k == BinaryKind::Equals { "Invalid operand types for equality check" } else { "Invalid operand types for inequality check" };
            return Err(Error::TypeError { message: String::from_str(what), expected: lt, found: rt, row, col_start: l_start, col_end: r_end });
        }
    } else {
        let what = match k {
            BinaryKind::GreaterThan => "Invalid operand types for greater-than check",
            BinaryKind::LessThan => "Invalid operand types for less-than check",
            BinaryKind::GreaterThanOrEqual => "Invalid operand types for greater-than-or-equal check",
            _ => "Invalid operand types for less-than-or-equal check",
        };
        if !lnum {
            return Err(Error::TypeError { message: String::from_str(what), expected: Type::Integer, found: lt, row, col_start: l_start, col_end: l_end });
        }
        if !rnum {
            return Err(Error::TypeError { message: String::from_str(what), expected: Type::Integer, found: rt, row, col_start: r_start, col_end: r_end });
        }
        t = Type::Boolean;
    }
    let data = binary_data(k, tl, tr);
    Ok(RecExpr { data, row, col_start: l_start, col_end: r_end, generic_data: t })
}

/// The binary expression data of kind `k`.
pub(crate) fn binary_data(k: BinaryKind, l: RecExpr<Type>, r: RecExpr<Type>) -> (d: RecExprData<Type>)
    ensures
        rec_view(RecExpr { data: d, row: 0, col_start: 0, col_end: 0, generic_data: Type::Undefined }).data
            == RecExprDataView::Binary(k, Box::new(rec_view(l)), Box::new(rec_view(r))),
{
    let l = Box::new(l);
    let r = Box::new(r);
    match k {
        BinaryKind::Add => RecExprData::Add { left: l, right: r },
        BinaryKind::Subtract => RecExprData::Subtract { left: l, right: r },
        BinaryKind::Multiply => RecExprData::Multiply { left: l, right: r },
        BinaryKind::Divide => RecExprData::Divide { left: l, right: r },
        BinaryKind::Power => RecExprData::Power { left: l, right: r },
        BinaryKind::Or => RecExprData::Or { left: l, right: r },
        BinaryKind::And => RecExprData::And { left: l, right: r },
        BinaryKind::Equals => RecExprData::Equals { left: l, right: r },
        BinaryKind::NotEquals => RecExprData::NotEquals { left: l, right: r },
        BinaryKind::GreaterThan => RecExprData::GreaterThan { left: l, right: r },
        BinaryKind::LessThan => RecExprData::LessThan { left: l, right: r },
        BinaryKind::GreaterThanOrEqual => RecExprData::GreaterThanOrEqual { left: l, right: r },
        BinaryKind::LessThanOrEqual => RecExprData::LessThanOrEqual { left: l, right: r },
    }
}

/// Once checking a prefix of a list of expressions fails, checking any longer prefix
/// fails with the same error.
proof fn lemma_check_list_error_stays(
    els: Seq<RecExprView<()>>,
    scopes: Seq<Seq<(Seq<char>, Type)>>,
    fns: Seq<FunctionTypeView>,
    fenv: Seq<FunctionSourceView>,
    fuel: nat,
    same: bool,
    k: int,
)
    requires
        0 <= k <= els.len(),
        check_list(els.subrange(0, k), scopes, fns, fenv, fuel, same) is Err,
    ensures
        check_list(els, scopes, fns, fenv, fuel, same) == check_list(els.subrange(0, k), scopes, fns, fenv, fuel, same),
    decreases els.len() - k,
{
    if k < els.len() {
        assert(els.drop_last().subrange(0, k) =~= els.subrange(0, k));
        lemma_check_list_error_stays(els.drop_last(), scopes, fns, fenv, fuel, same, k);
    } else {
        assert(els.subrange(0, k) =~= els);
    }
}

/// Once checking a prefix of the statements fails, checking any longer prefix fails
/// with the same error.
proof fn lemma_tc_error_stays(s: Seq<BaseExprView<()>>, env: TcEnv, fenv: Seq<FunctionSourceView>, fuel: nat, k: int)
    requires
        0 <= k <= s.len(),
        tc(s.subrange(0, k), env, fenv, fuel) is Err,
    ensures
        tc(s, env, fenv, fuel) == tc(s.subrange(0, k), env, fenv, fuel),
    decreases s.len() - k,
{
    if k < s.len() {
        assert(s.drop_last().subrange(0, k) =~= s.subrange(0, k));
        lemma_tc_error_stays(s.drop_last(), env, fenv, fuel, k);
    } else {
        assert(s.subrange(0, k) =~= s);
    }
}

/// The types of typed expressions.
fn types_of_exec(v: &Vec<RecExpr<Type>>) -> (r: Vec<Type>)
    ensures
        r@ == types_of(recs_view(v@)),
{
    proof { lemma_recs_view(v@); }
    let mut r: Vec<Type> = Vec::new();
    let mut i: usize = 0;
    while i < v.len()
        invariant
            i <= v@.len(),
            recs_view(v@).len() == v@.len(),
            forall|j: int| 0 <= j < v@.len() ==> #[trigger] recs_view(v@)[j] == rec_view(v@[j]),
            r@ == types_of(recs_view(v@)).subrange(0, i as int),
        decreases v@.len() - i,
    {
        r.push(copy_type(&v[i].generic_data));
        assert(r@ =~= types_of(recs_view(v@)).subrange(0, i + 1));
        i = i + 1;
    }
    assert(types_of(recs_view(v@)).subrange(0, v@.len() as int) =~= types_of(recs_view(v@)));
    r
}

/// Adds an innermost scope.
fn push_scope_exec(env: &mut TypeEnvironment, scope: Vec<TypeBinding>)
    ensures
        forall|r: Option<Type>| env_view(*final(env), r) == push_scope(env_view(*old(env), r), scope_view(scope@)),
        final(env).scopes@.len() == old(env).scopes@.len() + 1,
{
    let ghost before = env.scopes@;
    env.scopes.push(scope);
    assert(scopes_view(env.scopes@) =~= scopes_view(before).push(scope_view(scope@)));
}

/// Drops the innermost scope.
fn pop_scope_exec(env: &mut TypeEnvironment)
    requires
        old(env).scopes@.len() > 0,
    ensures
        forall|r: Option<Type>| env_view(*final(env), r) == pop_scope(env_view(*old(env), r)),
        final(env).scopes@.len() == old(env).scopes@.len() - 1,
{
    let ghost before = env.scopes@;
    let _ = env.scopes.pop();
    assert(scopes_view(env.scopes@) =~= scopes_view(before).drop_last());
}

spec fn opt_base_view(o: Option<BaseExpr<Type>>) -> Option<BaseExprView<Type>> {
    match o {
        Some(b) => Some(base_view(b)),
        None => None,
    }
}

/// Type checks expressions in order (with `same`, each after the first must have the
/// first one's type).
fn check_type_list(elements: Vec<RecExpr<()>>, env: &mut TypeEnvironment, func_env: &Vec<FunctionBinding>, fuel: u64, same: bool) -> (r: Result<Vec<RecExpr<Type>>, Error>)
    requires
        exprs_checkable(recs_view(elements@)),
        sources_checkable(sources_view(func_env@)),
    ensures
        final(env).scopes@ == old(env).scopes@,
        match check_list(recs_view(elements@), scopes_view(old(env).scopes@), fns_view(old(env).functions@), sources_view(func_env@), fuel as nat, same) {
            Ok((ts, f)) => r matches Ok(x) && recs_view(x@) == ts && fns_view(final(env).functions@) == f,
            Err(v) => r matches Err(e) && type_error_matches(e, v),
        },
        r matches Ok(x) ==> x@.len() == elements@.len(),
    decreases fuel, recs_size(recs_view(elements@)), 0nat,
{
    let ghost s = elements@;
    let ghost rv = recs_view(s);
    let ghost scopes0 = env.scopes@;
    let ghost sv = scopes_view(scopes0);
    let ghost fns0 = fns_view(env.functions@);
    let ghost fenv = sources_view(func_env@);
    proof {
        lemma_recs_view(s);
        lemma_recs_size(rv);
        lemma_exprs_checkable(rv);
    }
    let mut rev = reversed(elements);
    let mut out: Vec<RecExpr<Type>> = Vec::new();
    assert(rv.subrange(0, 0) =~= Seq::<RecExprView<()>>::empty());
    assert(recs_view(out@) =~= Seq::<RecExprView<Type>>::empty());
    while rev.len() > 0
        invariant
            s == elements@,
            rv == recs_view(s),
            rv.len() == s.len(),
            forall|i: int| 0 <= i < s.len() ==> #[trigger] rv[i] == rec_view(s[i]),
            forall|i: int| 0 <= i < s.len() ==> rec_size(#[trigger] rv[i]) < recs_size(rv),
            forall|i: int| 0 <= i < s.len() ==> expr_checkable(#[trigger] rv[i]),
            rev@.len() <= s.len(),
            forall|i: int| 0 <= i < rev@.len() ==> #[trigger] rev@[i] == s[s.len() - 1 - i],
            env.scopes@ == scopes0,
            scopes0 == old(env).scopes@,
            fns0 == fns_view(old(env).functions@),
            sv == scopes_view(scopes0),
            fenv == sources_view(func_env@),
            sources_checkable(fenv),
            out@.len() == s.len() - rev@.len(),
            check_list(rv.subrange(0, s.len() - rev@.len()), sv, fns0, fenv, fuel as nat, same)
                == Ok::<(Seq<RecExprView<Type>>, Seq<FunctionTypeView>), TypeErrorView>((recs_view(out@), fns_view(env.functions@))),
        decreases rev@.len(),
    {
        let ghost k = s.len() - rev@.len();
        let ghost f_before = fns_view(env.functions@);
        let ghost out_before = out@;
        let b = rev.pop().unwrap();
        assert(b == s[k]);
        assert(rv.subrange(0, k + 1).drop_last() =~= rv.subrange(0, k));
        assert(rv.subrange(0, k + 1).last() == rv[k]);
        let b_row = b.row;
        let b_start = b.col_start;
        let b_end = b.col_end;
        let t = match check_type_rec(b, env, func_env, fuel) {
            Ok(t) => t,
            Err(e) => {
                proof { lemma_check_list_error_stays(rv, sv, fns0, fenv, fuel as nat, same, k + 1); }
                return Err(e);
            },
        };
        proof { lemma_recs_view(out@); }
        if same && out.len() > 0 && !type_equal(&t.generic_data, &out[0].generic_data) {
            proof { lemma_check_list_error_stays(rv, sv, fns0, fenv, fuel as nat, same, k + 1); }
            let expected = copy_type(&out[0].generic_data);
            let found = copy_type(&t.generic_data);
            return Err(Error::TypeError {
                message: String::from_str("List elements must be of the same type"),
                expected,
                found,
                row: b_row,
                col_start: b_start,
                col_end: b_end,
            });
        }
        out.push(t);
        assert(out@.drop_last() =~= out_before);
    }
    assert(rv.subrange(0, s.len() as int) =~= rv);
    Ok(out)
}

/// Type checks the operands of a binary expression, left first, and then the
/// expression itself.
fn check_type_binary(
    k: BinaryKind,
    left: RecExpr<()>,
    right: RecExpr<()>,
    env: &mut TypeEnvironment,
    func_env: &Vec<FunctionBinding>,
    fuel: u64,
) -> (r: Result<RecExpr<Type>, Error>)
    requires
        expr_checkable(rec_view(left)),
        expr_checkable(rec_view(right)),
        sources_checkable(sources_view(func_env@)),
    ensures
        final(env).scopes@ == old(env).scopes@,
        match check_binary(k, rec_view(left), rec_view(right), scopes_view(old(env).scopes@), fns_view(old(env).functions@), sources_view(func_env@), fuel as nat) {
            Ok((te, f)) => r matches Ok(x) && rec_view(x) == te && fns_view(final(env).functions@) == f,
            Err(v) => r matches Err(e) && type_error_matches(e, v),
        },
    decreases fuel, 1 + rec_size(rec_view(left)) + rec_size(rec_view(right)), 0nat,
{
    let l_row = left.row;
    let l_start = left.col_start;
    let l_end = left.col_end;
    let r_start = right.col_start;
    let r_end = right.col_end;
    let tl = match check_type_rec(left, env, func_env, fuel) {
        Ok(x) => x,
        Err(e) => return Err(e),
    };
    let tr = match check_type_rec(right, env, func_env, fuel) {
        Ok(x) => x,
        Err(e) => return Err(e),
    };
    binary_typed(k, l_row, l_start, l_end, r_start, r_end, tl, tr)
}

/// Type checks an expression: fills in the type of each node.
#[verifier::spinoff_prover]
#[verifier::rlimit(50)]
fn check_type_rec(rec_expr: RecExpr<()>, env: &mut TypeEnvironment, func_env: &Vec<FunctionBinding>, fuel: u64) -> (r: Result<RecExpr<Type>, Error>)
    requires
        expr_checkable(rec_view(rec_expr)),
        sources_checkable(sources_view(func_env@)),
    ensures
        final(env).scopes@ == old(env).scopes@,
        match check_rec(rec_view(rec_expr), scopes_view(old(env).scopes@), fns_view(old(env).functions@), sources_view(func_env@), fuel as nat) {
            Ok((te, f)) => r matches Ok(x) && rec_view(x) == te && fns_view(final(env).functions@) == f,
            Err(v) => r matches Err(e) && type_error_matches(e, v),
        },
    decreases fuel, rec_size(rec_view(rec_expr)), 1nat,
{
    let ghost ev = rec_view(rec_expr);
    let RecExpr { data, row, col_start, col_end, generic_data: _ } = rec_expr;
    match data {
        RecExprData::Number { number } => Ok(RecExpr { data: RecExprData::Number { number }, row, col_start, col_end, generic_data: Type::Integer }),
        RecExprData::Boolean { value } => Ok(RecExpr { data: RecExprData::Boolean { value }, row, col_start, col_end, generic_data: Type::Boolean }),
        RecExprData::String { value } => Ok(RecExpr { data: RecExprData::String { value }, row, col_start, col_end, generic_data: Type::String }),
        RecExprData::List { elements } => {
            if elements.len() == 0 {
                assert(elements@ =~= Seq::<RecExpr<()>>::empty());
                assert(recs_view(elements@) =~= Seq::<RecExprView<()>>::empty());
                let r = RecExpr { data: RecExprData::List { elements: Vec::new() }, row, col_start, col_end, generic_data: Type::List(Box::new(Type::Undefined)) };
                assert(recs_view(Seq::<RecExpr<Type>>::empty()) =~= Seq::<RecExprView<Type>>::empty());
                assert(rec_view(r) == typed_at(RecExprDataView::List(seq![]), row as int, col_start as int, col_end as int, Type::List(Box::new(Type::Undefined))));
                return Ok(r);
            }
            let ts = match check_type_list(elements, env, func_env, fuel, true) {
                Ok(x) => x,
                Err(e) => return Err(e),
            };
            proof { lemma_recs_view(ts@); }
            let t0 = copy_type(&ts[0].generic_data);
            Ok(RecExpr { data: RecExprData::List { elements: ts }, row, col_start, col_end, generic_data: Type::List(Box::new(t0)) })
        },
        RecExprData::Add { left, right } => check_type_binary(BinaryKind::Add, *left, *right, env, func_env, fuel),
        RecExprData::Subtract { left, right } => check_type_binary(BinaryKind::Subtract, *left, *right, env, func_env, fuel),
        RecExprData::Multiply { left, right } => check_type_binary(BinaryKind::Multiply, *left, *right, env, func_env, fuel),
        RecExprData::Divide { left, right } => check_type_binary(BinaryKind::Divide, *left, *right, env, func_env, fuel),
        RecExprData::Power { left, right } => check_type_binary(BinaryKind::Power, *left, *right, env, func_env, fuel),
        RecExprData::Or { left, right } => check_type_binary(BinaryKind::Or, *left, *right, env, func_env, fuel),
        RecExprData::And { left, right } => check_type_binary(BinaryKind::And, *left, *right, env, func_env, fuel),
        RecExprData::Equals { left, right } => check_type_binary(BinaryKind::Equals, *left, *right, env, func_env, fuel),
        RecExprData::NotEquals { left, right } => check_type_binary(BinaryKind::NotEquals, *left, *right, env, func_env, fuel),
        RecExprData::GreaterThan { left, right } => check_type_binary(BinaryKind::GreaterThan, *left, *right, env, func_env, fuel),
        RecExprData::LessThan { left, right } => check_type_binary(BinaryKind::LessThan, *left, *right, env, func_env, fuel),
        RecExprData::GreaterThanOrEqual { left, right } => check_type_binary(BinaryKind::GreaterThanOrEqual, *left, *right, env, func_env, fuel),
        RecExprData::LessThanOrEqual { left, right } => check_type_binary(BinaryKind::LessThanOrEqual, *left, *right, env, func_env, fuel),
        RecExprData::Minus { right } => {
            let x_row = right.row;
            let x_start = right.col_start;
            let x_end = right.col_end;
            let tx = match check_type_rec(*right, env, func_env, fuel) {
                Ok(x) => x,
                Err(e) => return Err(e),
            };
            if type_equal(&tx.generic_data, &Type::Integer) || type_equal(&tx.generic_data, &Type::Float) {
                let t = copy_type(&tx.generic_data);
                Ok(RecExpr { data: RecExprData::Minus { right: Box::new(tx) }, row: x_row, col_start: x_start, col_end: x_end, generic_data: t })
            } else {
                let found = copy_type(&tx.generic_data);
                Err(Error::TypeError {
                    message: String::from_str("Invalid operand type for negation"),
                    expected: Type::Integer,
                    found,
                    row: x_row,
                    col_start: x_start,
                    col_end: x_end,
                })
            }
        },
        RecExprData::Not { right } => {
            let x_row = right.row;
            let x_start = right.col_start;
            let x_end = right.col_end;
            let tx = match check_type_rec(*right, env, func_env, fuel) {
                Ok(x) => x,
                Err(e) => return Err(e),
            };
            if type_equal(&tx.generic_data, &Type::Boolean) {
                Ok(RecExpr { data: RecExprData::Not { right: Box::new(tx) }, row: x_row, col_start: x_start, col_end: x_end, generic_data: Type::Boolean })
            } else {
                let found = copy_type(&tx.generic_data);
                Err(Error::TypeError {
                    message: String::from_str("Invalid operand type for logical NOT"),
                    expected: Type::Boolean,
                    found,
                    row: x_row,
                    col_start: x_start,
                    col_end: x_end,
                })
            }
        },
        RecExprData::FunctionCall { function_name, args } => {
            let targs = match check_type_list(args, env, func_env, fuel, false) {
                Ok(x) => x,
                Err(e) => return Err(e),
            };
            let arg_types = types_of_exec(&targs);
            match find_matching_function_in_env(&function_name, &arg_types, env, func_env, fuel) {
                Ok(rt) => Ok(RecExpr { data: RecExprData::FunctionCall { function_name, args: targs }, row, col_start, col_end, generic_data: rt }),
                Err(e) => Err(e),
            }
        },
        RecExprData::ListAccess { variable, index } => {
            let i_row = index.row;
            let i_start = index.col_start;
            let i_end = index.col_end;
            match find_in_env_exec(&variable, &*env) {
                Some(Type::List(et)) => {
                    let ti = match check_type_rec(*index, env, func_env, fuel) {
                        Ok(x) => x,
                        Err(e) => return Err(e),
                    };
                    if !type_equal(&ti.generic_data, &Type::Integer) {
                        let found = copy_type(&ti.generic_data);
                        return Err(Error::TypeError {
                            message: String::from_str("List index must be an integer"),
                            expected: Type::Integer,
                            found,
                            row: i_row,
                            col_start: i_start,
                            col_end: i_end,
                        });
                    }
                    Ok(RecExpr { data: RecExprData::ListAccess { variable, index: Box::new(ti) }, row, col_start, col_end, generic_data: *et })
                },
                Some(other) => {
                    let a = concat("Variable '", variable.as_str());
                    let b = concat(a.as_str(), "' is of type ");
                    let t = type_to_string(&other);
                    let c = concat(b.as_str(), t.as_str());
                    let message = concat(c.as_str(), ", not a list");
                    Err(Error::TypeError { message, expected: Type::List(Box::new(Type::Undefined)), found: other, row, col_start, col_end })
                },
                None => {
                    let a = concat("Variable '", variable.as_str());
                    let message = concat(a.as_str(), "' is not defined");
                    Err(Error::TypeError { message, expected: Type::Undefined, found: Type::Undefined, row, col_start, col_end })
                },
            }
        },
        RecExprData::Variable { name } => match find_in_env_exec(&name, &*env) {
            Some(t) => Ok(RecExpr { data: RecExprData::Variable { name }, row, col_start, col_end, generic_data: t }),
            None => {
                let a = concat("Variable '", name.as_str());
                let message = concat(a.as_str(), "' is not defined");
                Err(Error::TypeError { message, expected: Type::Undefined, found: Type::Undefined, row, col_start, col_end })
            },
        },
        _ => Err(Error::SimpleError { message: String::from_str("Expression kind not supported by the type checker") }),
    }
}

/// The return type of the function instance for this name and these argument types: an
/// instance checked before, or a new one checked from the definition (and added).
fn find_matching_function_in_env(
    name: &String,
    param_types: &Vec<Type>,
    env: &mut TypeEnvironment,
    func_env: &Vec<FunctionBinding>,
    fuel: u64,
) -> (r: Result<Type, Error>)
    requires
        sources_checkable(sources_view(func_env@)),
    ensures
        final(env).scopes@ == old(env).scopes@,
        match find_fn(name@, param_types@, fns_view(old(env).functions@), sources_view(func_env@), fuel as nat) {
            Ok((t, f)) => r == Ok::<Type, Error>(t) && fns_view(final(env).functions@) == f,
            Err(v) => r matches Err(e) && type_error_matches(e, v),
        },
    decreases fuel, 0nat, 0nat,
{
    let ghost fenv = sources_view(func_env@);
    match find_instance_index(name, param_types, &env.functions) {
        Some(i) => {
            return Ok(copy_type(&env.functions[i].return_type));
        },
        None => {},
    }
    let j = match find_source_index(name, param_types.len(), func_env) {
        Some(j) => j,
        None => {
            let a = concat("Function '", name.as_str());
            let b = concat(a.as_str(), "' with parameter types ");
            let t = types_to_string(param_types);
            let c = concat(b.as_str(), t.as_str());
            return Err(Error::SimpleError { message: concat(c.as_str(), " not found") });
        },
    };
    if fuel == 0 {
        let a = concat("Function '", name.as_str());
        return Err(Error::SimpleError { message: concat(a.as_str(), "' is instantiated too deeply") });
    }
    let func = &func_env[j];
    let ghost src = fenv[j as int];
    let mut scope: Vec<TypeBinding> = Vec::new();
    let mut i: usize = 0;
    while i < func.param_names.len()
        invariant
            i <= func.param_names@.len(),
            func.param_names@.len() == param_types@.len(),
            src == source_view(*func),
            src.param_names == strings_view(func.param_names@),
            scope@.len() == i,
            scope_view(scope@) == params_scope(src.param_names, param_types@).subrange(0, i as int),
        decreases func.param_names@.len() - i,
    {
        let ghost before = scope@;
        scope.push(TypeBinding { name: func.param_names[i].clone(), value_type: copy_type(&param_types[i]) });
        assert forall|j: int| 0 <= j < i + 1 implies #[trigger] scope_view(scope@)[j] == params_scope(src.param_names, param_types@).subrange(0, i + 1)[j] by {
            assert(strings_view(func.param_names@)[j] == func.param_names@[j]@);
            if j < i {
                assert(scope_view(before)[j] == params_scope(src.param_names, param_types@).subrange(0, i as int)[j]);
                assert(scope_view(before)[j] == binding_view(before[j]));
            }
        }
        assert(scope_view(scope@) =~= params_scope(src.param_names, param_types@).subrange(0, i + 1));
        i = i + 1;
    }
    assert(params_scope(src.param_names, param_types@).subrange(0, i as int) =~= params_scope(src.param_names, param_types@));
    let mut scopes: Vec<Vec<TypeBinding>> = Vec::new();
    scopes.push(scope);
    let mut new_env = TypeEnvironment { scopes, functions: copy_function_types(&env.functions) };
    assert(scopes_view(new_env.scopes@) =~= seq![params_scope(src.param_names, param_types@)]);
    let mut expected_return_type: Option<Type> = None;
    let content = copy_base_exprs(&func.content);
    assert(stmts_checkable(fenv[j as int].content));
    match type_check(content, &mut new_env, func_env, &mut expected_return_type, fuel - 1) {
        Ok(typed) => {
            let return_type = match expected_return_type {
                Some(rt) => rt,
                None => Type::Undefined,
            };
            let instance = FunctionType {
                name: name.clone(),
                param_names: copy_strings(&func.param_names),
                param_types: copy_types(param_types),
                return_type: copy_type(&return_type),
                content: typed,
            };
            let ghost before = env.functions@;
            env.functions.push(instance);
            assert(fns_view(env.functions@) =~= fns_view(before).push(fn_view(instance)));
            Ok(return_type)
        },
        Err(e) => Err(e),
    }
}

/// Type checks statements in order, in the environment's innermost scope.
fn type_check(
    base_expressions: Vec<BaseExpr<()>>,
    env: &mut TypeEnvironment,
    func_env: &Vec<FunctionBinding>,
    expected_return_type: &mut Option<Type>,
    fuel: u64,
) -> (r: Result<Vec<BaseExpr<Type>>, Error>)
    requires
        stmts_checkable(bases_view(base_expressions@)),
        old(env).scopes@.len() > 0,
        sources_checkable(sources_view(func_env@)),
    ensures
        match tc(bases_view(base_expressions@), env_view(*old(env), *old(expected_return_type)), sources_view(func_env@), fuel as nat) {
            Ok((ts, e2)) => r matches Ok(x) && bases_view(x@) == ts && env_view(*final(env), *final(expected_return_type)) == e2,
            Err(v) => r matches Err(e) && type_error_matches(e, v),
        },
    decreases fuel, stmts_size(bases_view(base_expressions@)), 0nat,
{
    let ghost s = base_expressions@;
    let ghost bv = bases_view(s);
    let ghost env0 = env_view(*env, *expected_return_type);
    let ghost fenv = sources_view(func_env@);
    proof {
        lemma_bases_view(s);
        lemma_stmts_size(bv);
        lemma_stmts_checkable(bv);
    }
    let mut rev = reversed(base_expressions);
    let mut out: Vec<BaseExpr<Type>> = Vec::new();
    assert(bv.subrange(0, 0) =~= Seq::<BaseExprView<()>>::empty());
    assert(bases_view(out@) =~= Seq::<BaseExprView<Type>>::empty());
    while rev.len() > 0
        invariant
            s == base_expressions@,
            bv == bases_view(s),
            bv.len() == s.len(),
            forall|i: int| 0 <= i < s.len() ==> #[trigger] bv[i] == base_view(s[i]),
            forall|i: int| 0 <= i < s.len() ==> stmt_size(#[trigger] bv[i]) < stmts_size(bv),
            forall|i: int| 0 <= i < s.len() ==> stmt_checkable(#[trigger] bv[i]),
            rev@.len() <= s.len(),
            forall|i: int| 0 <= i < rev@.len() ==> #[trigger] rev@[i] == s[s.len() - 1 - i],
            fenv == sources_view(func_env@),
            sources_checkable(fenv),
            env0 == env_view(*old(env), *old(expected_return_type)),
            env.scopes@.len() > 0,
            tc(bv.subrange(0, s.len() - rev@.len()), env0, fenv, fuel as nat)
                == Ok::<(Seq<BaseExprView<Type>>, TcEnv), TypeErrorView>((bases_view(out@), env_view(*env, *expected_return_type))),
        decreases rev@.len(),
    {
        let ghost k = s.len() - rev@.len();
        let ghost out_before = out@;
        let ghost env1 = env_view(*env, *expected_return_type);
        let b = rev.pop().unwrap();
        assert(b == s[k]);
        assert(bv.subrange(0, k + 1).drop_last() =~= bv.subrange(0, k));
        assert(bv.subrange(0, k + 1).last() == bv[k]);
        proof { lemma_step_scopes(bv[k], env1, fenv, fuel as nat); }
        match type_check_statement(b, env, func_env, expected_return_type, fuel) {
            Ok(Some(t)) => {
                out.push(t);
                assert(out@.drop_last() =~= out_before);
            },
            Ok(None) => {},
            Err(e) => {
                proof { lemma_tc_error_stays(bv, env0, fenv, fuel as nat, k + 1); }
                return Err(e);
            },
        }
    }
    assert(bv.subrange(0, s.len() as int) =~= bv);
    Ok(out)
}

spec fn else_view(e: Option<Box<BaseExpr<()>>>) -> Option<Box<BaseExprView<()>>> {
    match e {
        Some(x) => Some(Box::new(base_view(*x))),
        None => None,
    }
}

spec fn typed_else_view(e: Option<Box<BaseExpr<Type>>>) -> Option<Box<BaseExprView<Type>>> {
    match e {
        Some(x) => Some(Box::new(base_view(*x))),
        None => None,
    }
}

/// Type checks the parts of an `if` or `else if` statement.
fn type_check_branch(
    condition: RecExpr<()>,
    body: Vec<BaseExpr<()>>,
    else_statement: Option<Box<BaseExpr<()>>>,
    env: &mut TypeEnvironment,
    func_env: &Vec<FunctionBinding>,
    expected_return_type: &mut Option<Type>,
    fuel: u64,
) -> (r: Result<(RecExpr<Type>, Vec<BaseExpr<Type>>, Option<Box<BaseExpr<Type>>>), Error>)
    requires
        expr_checkable(rec_view(condition)),
        stmts_checkable(bases_view(body@)),
        match else_view(else_statement) {
            Some(x) => stmt_checkable(*x) && else_kind_ok(*x),
            None => true,
        },
        old(env).scopes@.len() > 0,
        sources_checkable(sources_view(func_env@)),
    ensures
        match branch_step(rec_view(condition), bases_view(body@), else_view(else_statement), env_view(*old(env), *old(expected_return_type)), sources_view(func_env@), fuel as nat) {
            Ok((tc_, tb, te, e2)) => r matches Ok((x, y, z)) && rec_view(x) == tc_ && bases_view(y@) == tb && typed_else_view(z) == te
                && env_view(*final(env), *final(expected_return_type)) == e2,
            Err(v) => r matches Err(e) && type_error_matches(e, v),
        },
    decreases fuel, 1 + rec_size(rec_view(condition)) + stmts_size(bases_view(body@)) + match else_view(else_statement) {
        Some(x) => stmt_size(*x),
        None => 0,
    }, 0nat,
{
    let ghost fenv = sources_view(func_env@);
    let c_row = condition.row;
    let c_start = condition.col_start;
    let c_end = condition.col_end;
    let tcond = match check_type_rec(condition, env, func_env, fuel) {
        Ok(x) => x,
        Err(e) => return Err(e),
    };
    if !type_equal(&tcond.generic_data, &Type::Boolean) {
        let found = copy_type(&tcond.generic_data);
        return Err(Error::TypeError {
            message: String::from_str("If condition must be of type Boolean"),
            expected: Type::Boolean,
            found,
            row: c_row,
            col_start: c_start,
            col_end: c_end,
        });
    }
    let ghost e1 = env_view(*env, *expected_return_type);
    push_scope_exec(env, Vec::new());
    assert(scope_view(Seq::<TypeBinding>::empty()) =~= Seq::<(Seq<char>, Type)>::empty());
    proof { lemma_tc_scopes(bases_view(body@), push_scope(e1, seq![]), fenv, fuel as nat); }
    let tb = match type_check(body, env, func_env, expected_return_type, fuel) {
        Ok(x) => x,
        Err(e) => return Err(e),
    };
    pop_scope_exec(env);
    let else_typed = match else_statement {
        Some(e) => {
            let ghost e2 = env_view(*env, *expected_return_type);
            push_scope_exec(env, Vec::new());
            proof { lemma_step_scopes(base_view(*e), push_scope(e2, seq![]), fenv, fuel as nat); }
            let o = match type_check_statement(*e, env, func_env, expected_return_type, fuel) {
                Ok(x) => x,
                Err(err) => return Err(err),
            };
            pop_scope_exec(env);
            match o {
                Some(x) => Some(Box::new(x)),
                None => None,
            }
        },
        None => None,
    };
    Ok((tcond, tb, else_typed))
}

/// Type checks one statement; gives its typed form, or none for a function definition
/// and a `return` without a value.
fn type_check_statement(
    base_expr: BaseExpr<()>,
    env: &mut TypeEnvironment,
    func_env: &Vec<FunctionBinding>,
    expected_return_type: &mut Option<Type>,
    fuel: u64,
) -> (r: Result<Option<BaseExpr<Type>>, Error>)
    requires
        stmt_checkable(base_view(base_expr)),
        old(env).scopes@.len() > 0,
        sources_checkable(sources_view(func_env@)),
    ensures
        match stmt_step(base_view(base_expr), env_view(*old(env), *old(expected_return_type)), sources_view(func_env@), fuel as nat) {
            Ok((o, e2)) => r matches Ok(x) && opt_base_view(x) == o && env_view(*final(env), *final(expected_return_type)) == e2,
            Err(v) => r matches Err(e) && type_error_matches(e, v),
        },
    decreases fuel, stmt_size(base_view(base_expr)), 1nat,
{
    let ghost bv = base_view(base_expr);
    let ghost env0 = env_view(*env, *expected_return_type);
    let ghost fenv = sources_view(func_env@);
    let BaseExpr { data, row, col_start, col_end, generic_data: _ } = base_expr;
    match data {
        BaseExprData::Simple { expr } => {
            let te = match check_type_rec(expr, env, func_env, fuel) {
                Ok(x) => x,
                Err(e) => return Err(e),
            };
            let t = copy_type(&te.generic_data);
            Ok(Some(BaseExpr { data: BaseExprData::Simple { expr: te }, row, col_start, col_end, generic_data: t }))
        },
        BaseExprData::VariableAssignment { var_name, expr } => {
            let te = match check_type_rec(expr, env, func_env, fuel) {
                Ok(x) => x,
                Err(e) => return Err(e),
            };
            let t = copy_type(&te.generic_data);
            let ghost before = env.scopes@;
            let mut scope = env.scopes.pop().unwrap();
            update_or_add_in_scope(&t, &var_name, &mut scope);
            env.scopes.push(scope);
            assert(scopes_view(env.scopes@) =~= scopes_view(before).update(before.len() - 1, update_or_add(t, var_name@, scopes_view(before).last())));
            Ok(Some(BaseExpr { data: BaseExprData::VariableAssignment { var_name, expr: te }, row, col_start, col_end, generic_data: Type::Undefined }))
        },
        BaseExprData::FunctionDefinition { .. } => Ok(None),
        BaseExprData::IfStatement { condition, body, else_statement } => {
            match type_check_branch(condition, body, else_statement, env, func_env, expected_return_type, fuel) {
                Ok((tcond, tb, tels)) => Ok(Some(BaseExpr {
                    data: BaseExprData::IfStatement { condition: tcond, body: tb, else_statement: tels },
                    row,
                    col_start,
                    col_end,
                    generic_data: Type::Undefined,
                })),
                Err(e) => Err(e),
            }
        },
        BaseExprData::ElseIfStatement { condition, body, else_statement } => {
            match type_check_branch(condition, body, else_statement, env, func_env, expected_return_type, fuel) {
                Ok((tcond, tb, tels)) => Ok(Some(BaseExpr {
                    data: BaseExprData::ElseIfStatement { condition: tcond, body: tb, else_statement: tels },
                    row,
                    col_start,
                    col_end,
                    generic_data: Type::Undefined,
                })),
                Err(e) => Err(e),
            }
        },
        BaseExprData::ElseStatement { body } => {
            let ghost e1 = env_view(*env, *expected_return_type);
            push_scope_exec(env, Vec::new());
            assert(scope_view(Seq::<TypeBinding>::empty()) =~= Seq::<(Seq<char>, Type)>::empty());
            proof { lemma_tc_scopes(bases_view(body@), push_scope(e1, seq![]), fenv, fuel as nat); }
            let tb = match type_check(body, env, func_env, expected_return_type, fuel) {
                Ok(x) => x,
                Err(e) => return Err(e),
            };
            pop_scope_exec(env);
            Ok(Some(BaseExpr { data: BaseExprData::ElseStatement { body: tb }, row, col_start, col_end, generic_data: Type::Undefined }))
        },
        BaseExprData::Return { return_value } => match return_value {
            None => {
                *expected_return_type = Some(Type::Undefined);
                Ok(None)
            },
            Some(rv) => {
                let v_row = rv.row;
                let v_start = rv.col_start;
                let v_end = rv.col_end;
                let te = match check_type_rec(rv, env, func_env, fuel) {
                    Ok(x) => x,
                    Err(e) => return Err(e),
                };
                let rt = copy_type(&te.generic_data);
                match expected_return_type {
                    Some(expected) => {
                        if !type_equal(expected, &rt) {
                            let exp = copy_type(expected);
                            return Err(Error::TypeError {
                                message: String::from_str("Return type does not match expected return type"),
                                expected: exp,
                                found: rt,
                                row: v_row,
                                col_start: v_start,
                                col_end: v_end,
                            });
                        }
                    },
                    None => {
                        *expected_return_type = Some(copy_type(&rt));
                    },
                }
                Ok(Some(BaseExpr { data: BaseExprData::Return { return_value: Some(te) }, row, col_start, col_end, generic_data: rt }))
            },
        },
        BaseExprData::ForLoop { var_name, until, body } => {
            let u_row = until.row;
            let u_start = until.col_start;
            let u_end = until.col_end;
            let tu = match check_type_rec(until, env, func_env, fuel) {
                Ok(x) => x,
                Err(e) => return Err(e),
            };
            let it = match &tu.generic_data {
                Type::Integer => Type::Integer,
                Type::List(t) => copy_type(&**t),
                other => {
                    let t = type_to_string(other);
                    return Err(Error::LocationError {
                        message: concat("For loop iteration cannot be of type ", t.as_str()),
                        row: u_row,
                        col_start: u_start,
                        col_end: u_end,
                    });
                },
            };
            let ghost e1 = env_view(*env, *expected_return_type);
            let mut scope: Vec<TypeBinding> = Vec::new();
            scope.push(TypeBinding { name: var_name.clone(), value_type: it });
            assert(scope_view(scope@) =~= seq![(var_name@, it)]);
            push_scope_exec(env, scope);
            proof { lemma_tc_scopes(bases_view(body@), push_scope(e1, seq![(var_name@, it)]), fenv, fuel as nat); }
            let tb = match type_check(body, env, func_env, expected_return_type, fuel) {
                Ok(x) => x,
                Err(e) => return Err(e),
            };
            pop_scope_exec(env);
            Ok(Some(BaseExpr { data: BaseExprData::ForLoop { var_name, until: tu, body: tb }, row, col_start, col_end, generic_data: Type::Undefined }))
        },
        BaseExprData::Break => Ok(Some(BaseExpr { data: BaseExprData::Break, row, col_start, col_end, generic_data: Type::Undefined })),
        BaseExprData::PlusEqualsStatement { .. } => Err(Error::SimpleError { message: String::from_str("Statement kind not supported by the type checker") }),
    }
}

/// A built-in function instance with one parameter of type `t` and no return value.
pub open spec fn builtin(name: Seq<char>, t: Type) -> FunctionTypeView {
    FunctionTypeView { name, param_names: seq!["value"@], param_types: seq![t], return_type: Type::Undefined, content: seq![] }
}

/// The built-in function instances: `print` and `println` of a string, an integer, a
/// float and a boolean.
pub open spec fn default_functions() -> Seq<FunctionTypeView> {
    seq![
        builtin("print"@, Type::String),
        builtin("print"@, Type::Integer),
        builtin("print"@, Type::Float),
        builtin("print"@, Type::Boolean),
        builtin("println"@, Type::String),
        builtin("println"@, Type::Integer),
        builtin("println"@, Type::Float),
        builtin("println"@, Type::Boolean),
    ]
}

/// The function definitions at the top level of a program, in order.
pub open spec fn preload(s: Seq<BaseExprView<()>>) -> Seq<FunctionSourceView>
    decreases s.len(),
{
    if s.len() == 0 {
        seq![]
    } else {
        preload(s.drop_last()) + match s.last().data {
            BaseExprDataView::FunctionDefinition(f, a, body) => seq![FunctionSourceView { name: f, param_names: a, content: body }],
            _ => seq![],
        }
    }
}

/// The environment type checking of a program starts from: one empty scope, the
/// built-in functions, and no return type.
pub open spec fn start_env() -> TcEnv {
    TcEnv { scopes: seq![seq![]], functions: default_functions(), ret: None }
}

/// What type checking a program gives: its typed statements (function definitions left
/// out) and every function instance checked, the built-in ones first.
pub open spec fn check_program(s: Seq<BaseExprView<()>>) -> Result<(Seq<BaseExprView<Type>>, Seq<FunctionTypeView>), TypeErrorView> {
    match tc(s, start_env(), preload(s), INSTANTIATION_LIMIT as nat) {
        Ok((ts, env)) => Ok((ts, env.functions)),
        Err(x) => Err(x),
    }
}

/// The function definitions of a checkable program have checkable bodies.
proof fn lemma_preload_checkable(s: Seq<BaseExprView<()>>)
    requires
        stmts_checkable(s),
    ensures
        sources_checkable(preload(s)),
    decreases s.len(),
{
    if s.len() > 0 {
        lemma_preload_checkable(s.drop_last());
        let p = preload(s.drop_last());
        let q = preload(s);
        assert forall|i: int| 0 <= i < q.len() implies stmts_checkable(#[trigger] q[i].content) by {
            if i < p.len() {
                assert(q[i] == p[i]);
            } else {
                assert(stmt_checkable(s.last()));
                match s.last().data {
                    BaseExprDataView::FunctionDefinition(f, a, body) => {
                        assert(q == p + seq![FunctionSourceView { name: f, param_names: a, content: body }]);
                        assert(q[i].content == body);
                    },
                    _ => {
                        assert(q == p + Seq::<FunctionSourceView>::empty());
                        assert(q.len() == p.len());
                    },
                }
            }
        }
    }
}

fn builtin_instance(name: &str, t: Type) -> (r: FunctionType)
    ensures
        fn_view(r) == builtin(name@, t),
{
    let mut param_names: Vec<String> = Vec::new();
    param_names.push(String::from_str("value"));
    let mut param_types: Vec<Type> = Vec::new();
    param_types.push(t);
    let r = FunctionType { name: String::from_str(name), param_names, param_types, return_type: Type::Undefined, content: Vec::new() };
    assert(strings_view(r.param_names@) =~= seq!["value"@]);
    assert(r.param_types@ =~= seq![t]);
    assert(bases_view(r.content@) =~= Seq::<BaseExprView<Type>>::empty());
    r
}

/// Adds the built-in functions to the environment's instances.
fn add_default_functions_to_env(env: &mut TypeEnvironment)
    requires
        old(env).functions@.len() == 0,
    ensures
        fns_view(final(env).functions@) == default_functions(),
        final(env).scopes@ == old(env).scopes@,
{
    env.functions.push(builtin_instance("print", Type::String));
    env.functions.push(builtin_instance("print", Type::Integer));
    env.functions.push(builtin_instance("print", Type::Float));
    env.functions.push(builtin_instance("print", Type::Boolean));
    env.functions.push(builtin_instance("println", Type::String));
    env.functions.push(builtin_instance("println", Type::Integer));
    env.functions.push(builtin_instance("println", Type::Float));
    env.functions.push(builtin_instance("println", Type::Boolean));
    assert(fns_view(env.functions@) =~= default_functions());
}

/// Collects the function definitions at the top level of a program.
fn preload_functions(base_expressions: &Vec<BaseExpr<()>>, func_env: &mut Vec<FunctionBinding>)
    requires
        old(func_env)@.len() == 0,
    ensures
        sources_view(final(func_env)@) == preload(bases_view(base_expressions@)),
{
    let ghost s = base_expressions@;
    proof { lemma_bases_view(s); }
    let mut i: usize = 0;
    assert(bases_view(s).subrange(0, 0) =~= Seq::<BaseExprView<()>>::empty());
    assert(sources_view(func_env@) =~= Seq::<FunctionSourceView>::empty());
    while i < base_expressions.len()
        invariant
            s == base_expressions@,
            i <= s.len(),
            bases_view(s).len() == s.len(),
            forall|j: int| 0 <= j < s.len() ==> #[trigger] bases_view(s)[j] == base_view(s[j]),
            sources_view(func_env@) == preload(bases_view(s).subrange(0, i as int)),
        decreases s.len() - i,
    {
        let ghost before = func_env@;
        assert(bases_view(s).subrange(0, i + 1).drop_last() =~= bases_view(s).subrange(0, i as int));
        assert(bases_view(s).subrange(0, i + 1).last() == base_view(s[i as int]));
        match &base_expressions[i].data {
            BaseExprData::FunctionDefinition { fun_name, args, body } => {
                func_env.push(FunctionBinding { name: fun_name.clone(), param_names: copy_strings(args), content: copy_base_exprs(body) });
                assert(sources_view(func_env@) =~= sources_view(before) + seq![source_view(func_env@.last())]);
            },
            _ => {
                assert(sources_view(before) + Seq::<FunctionSourceView>::empty() =~= sources_view(before));
            },
        }
        i = i + 1;
    }
    assert(bases_view(s).subrange(0, s.len() as int) =~= bases_view(s));
}

/// Type checks a program: gives its typed statements (without function definitions) and
/// all function instances checked, the built-in ones first.
pub fn type_check_program(base_expressions: Vec<BaseExpr<()>>) -> (r: Result<(Vec<BaseExpr<Type>>, Vec<FunctionType>), Error>)
    requires
        stmts_checkable(bases_view(base_expressions@)),
    ensures
        match check_program(bases_view(base_expressions@)) {
            Ok((ts, fs)) => r matches Ok((x, y)) && bases_view(x@) == ts && fns_view(y@) == fs,
            Err(v) => r matches Err(e) && type_error_matches(e, v),
        },
{
    let mut scopes: Vec<Vec<TypeBinding>> = Vec::new();
    scopes.push(Vec::new());
    let mut env = TypeEnvironment { scopes, functions: Vec::new() };
    add_default_functions_to_env(&mut env);
    let mut func_env: Vec<FunctionBinding> = Vec::new();
    preload_functions(&base_expressions, &mut func_env);
    proof { lemma_preload_checkable(bases_view(base_expressions@)); }
    assert(env.scopes@.len() == 1);
    assert(scope_view(env.scopes@[0]@) =~= Seq::<(Seq<char>, Type)>::empty());
    assert(scopes_view(env.scopes@) =~= seq![Seq::<(Seq<char>, Type)>::empty()]);
    let mut expected_return_type: Option<Type> = None;
    match type_check(base_expressions, &mut env, &func_env, &mut expected_return_type, INSTANTIATION_LIMIT) {
        Ok(typed) => Ok((typed, env.functions)),
        Err(e) => Err(e),
    }
}

/// What `get_type` gives for a statement that is an expression.
pub open spec fn get_type_spec(e: RecExprView<()>, row: int, col_start: int, col_end: int) -> Result<BaseExprView<Type>, TypeErrorView> {
    match check_rec(e, seq![seq![]], default_functions(), seq![], INSTANTIATION_LIMIT as nat) {
        Ok((te, _)) => Ok(BaseExprView { data: BaseExprDataView::Simple(te), row, col_start, col_end, generic_data: te.generic_data }),
        Err(x) => Err(x),
    }
}

/// Type checks a statement that is a single expression, with only the built-in functions.
pub fn get_type(base_expr: BaseExpr<()>) -> (r: Result<BaseExpr<Type>, Error>)
    requires
        base_view(base_expr).data matches BaseExprDataView::Simple(e) && expr_checkable(e),
    ensures
        base_view(base_expr).data matches BaseExprDataView::Simple(e) && match get_type_spec(e, base_expr.row as int, base_expr.col_start as int, base_expr.col_end as int) {
            Ok(t) => r matches Ok(x) && base_view(x) == t,
            Err(v) => r matches Err(err) && type_error_matches(err, v),
        },
{
    let mut scopes: Vec<Vec<TypeBinding>> = Vec::new();
    scopes.push(Vec::new());
    let mut env = TypeEnvironment { scopes, functions: Vec::new() };
    add_default_functions_to_env(&mut env);
    let func_env: Vec<FunctionBinding> = Vec::new();
    assert(env.scopes@.len() == 1);
    assert(scope_view(env.scopes@[0]@) =~= Seq::<(Seq<char>, Type)>::empty());
    assert(scopes_view(env.scopes@) =~= seq![Seq::<(Seq<char>, Type)>::empty()]);
    assert(sources_view(func_env@) =~= Seq::<FunctionSourceView>::empty());
    let BaseExpr { data, row, col_start, col_end, generic_data: _ } = base_expr;
    match data {
        BaseExprData::Simple { expr } => {
            let te = match check_type_rec(expr, &mut env, &func_env, INSTANTIATION_LIMIT) {
                Ok(x) => x,
                Err(e) => return Err(e),
            };
            let t = copy_type(&te.generic_data);
            Ok(BaseExpr { data: BaseExprData::Simple { expr: te }, row, col_start, col_end, generic_data: t })
        },
        _ => Err(Error::SimpleError { message: String::from_str("Only a single expression can be typed here") }),
    }
}

/// The line reporting the type of an assigned variable.
pub open spec fn report_line(name: Seq<char>, t: Type) -> Seq<char> {
    "Variable '"@ + name + "' has type "@ + type_text(t)
}

/// The report lines of the assignments in a typed statement, in the order they were
/// checked: the statement, then its body, then its `else` branch.
pub open spec fn stmt_report(b: BaseExprView<Type>) -> Seq<Seq<char>>
    decreases b,
{
    match b.data {
        BaseExprDataView::VariableAssignment(v, e) => seq![report_line(v, e.generic_data)],
        BaseExprDataView::If(_, body, els) => stmts_report(body) + match els {
            Some(x) => stmt_report(*x),
            None => seq![],
        },
        BaseExprDataView::ElseIf(_, body, els) => stmts_report(body) + match els {
            Some(x) => stmt_report(*x),
            None => seq![],
        },
        BaseExprDataView::Else(body) => stmts_report(body),
        BaseExprDataView::ForLoop(_, _, body) => stmts_report(body),
        BaseExprDataView::FunctionDefinition(_, _, body) => stmts_report(body),
        _ => seq![],
    }
}

/// The report lines of typed statements, in order.
pub open spec fn stmts_report(s: Seq<BaseExprView<Type>>) -> Seq<Seq<char>>
    decreases s,
{
    if s.len() == 0 {
        seq![]
    } else {
        stmts_report(s.drop_last()) + stmt_report(s.last())
    }
}

fn report_statement(b: &BaseExpr<Type>, out: &mut Vec<String>)
    ensures
        final(out)@.map_values(|x: String| x@) == old(out)@.map_values(|x: String| x@) + stmt_report(base_view(*b)),
    decreases b, 1nat,
{
    let ghost o = old(out)@.map_values(|x: String| x@);
    match &b.data {
        BaseExprData::VariableAssignment { var_name, expr } => {
            let a = concat("Variable '", var_name.as_str());
            let c = concat(a.as_str(), "' has type ");
            let t = type_to_string(&expr.generic_data);
            let line = concat(c.as_str(), t.as_str());
            out.push(line);
            assert(out@.map_values(|x: String| x@) =~= o + seq![report_line(var_name@, expr.generic_data)]);
        },
        BaseExprData::IfStatement { body, else_statement, .. } | BaseExprData::ElseIfStatement { body, else_statement, .. } => {
            report_statements(body, out);
            let ghost mid = out@.map_values(|x: String| x@);
            match else_statement {
                Some(x) => report_statement(&**x, out),
                None => {},
            }
            assert(out@.map_values(|x: String| x@) =~= o + stmt_report(base_view(*b)));
        },
        BaseExprData::ElseStatement { body } | BaseExprData::ForLoop { body, .. } | BaseExprData::FunctionDefinition { body, .. } => {
            report_statements(body, out);
        },
        _ => {
            assert(out@.map_values(|x: String| x@) =~= o + stmt_report(base_view(*b)));
        },
    }
}

fn report_statements(v: &Vec<BaseExpr<Type>>, out: &mut Vec<String>)
    ensures
        final(out)@.map_values(|x: String| x@) == old(out)@.map_values(|x: String| x@) + stmts_report(bases_view(v@)),
    decreases v, 0nat,
{
    let ghost o = old(out)@.map_values(|x: String| x@);
    let ghost bv = bases_view(v@);
    proof { lemma_bases_view(v@); }
    let mut i: usize = 0;
    assert(bv.subrange(0, 0) =~= Seq::<BaseExprView<Type>>::empty());
    assert(o + stmts_report(bv.subrange(0, 0)) =~= o);
    while i < v.len()
        invariant
            i <= v@.len(),
            bv == bases_view(v@),
            bv.len() == v@.len(),
            forall|j: int| 0 <= j < v@.len() ==> #[trigger] bv[j] == base_view(v@[j]),
            o == old(out)@.map_values(|x: String| x@),
            out@.map_values(|x: String| x@) == o + stmts_report(bv.subrange(0, i as int)),
        decreases v@.len() - i,
    {
        proof { assert(decreases_to!(v => v@[i as int])); }
        report_statement(&v[i], out);
        assert(bv.subrange(0, i + 1).drop_last() =~= bv.subrange(0, i as int));
        assert(o + stmts_report(bv.subrange(0, i + 1)) =~= o + stmts_report(bv.subrange(0, i as int)) + stmt_report(bv[i as int]));
        i = i + 1;
    }
    assert(bv.subrange(0, v@.len() as int) =~= bv);
}

/// The lines reporting the type of each assigned variable of a typed program, in the
/// order the assignments were checked.
pub fn variable_type_report(typed: &Vec<BaseExpr<Type>>) -> (r: Vec<String>)
    ensures
        r@.map_values(|x: String| x@) == stmts_report(bases_view(typed@)),
{
    let mut out: Vec<String> = Vec::new();
    assert(out@.map_values(|x: String| x@) =~= Seq::<Seq<char>>::empty());
    report_statements(typed, &mut out);
    assert(Seq::<Seq<char>>::empty() + stmts_report(bases_view(typed@)) =~= stmts_report(bases_view(typed@)));
    out
}

/// Whether the type checker handles an expression.
pub fn expr_is_checkable(e: &RecExpr<()>) -> (r: bool)
    ensures
        r == expr_checkable(rec_view(*e)),
    decreases e, 1nat,
{
    match &e.data {
        RecExprData::Assign { .. } => false,
        RecExprData::Access { .. } => false,
        RecExprData::Add { left, right } | RecExprData::Subtract { left, right } | RecExprData::Multiply { left, right }
        | RecExprData::Divide { left, right } | RecExprData::Power { left, right } | RecExprData::Or { left, right }
        | RecExprData::And { left, right } | RecExprData::Equals { left, right } | RecExprData::NotEquals { left, right }
        | RecExprData::GreaterThan { left, right } | RecExprData::LessThan { left, right }
        | RecExprData::GreaterThanOrEqual { left, right } | RecExprData::LessThanOrEqual { left, right } => {
            expr_is_checkable(&**left) && expr_is_checkable(&**right)
        },
        RecExprData::Minus { right } | RecExprData::Not { right } => expr_is_checkable(&**right),
        RecExprData::ListAccess { index, .. } => expr_is_checkable(&**index),
        RecExprData::FunctionCall { args, .. } => exprs_are_checkable(args),
        RecExprData::List { elements } => exprs_are_checkable(elements),
        _ => true,
    }
}

/// Whether the type checker handles every expression.
fn exprs_are_checkable(v: &Vec<RecExpr<()>>) -> (r: bool)
    ensures
        r == exprs_checkable(recs_view(v@)),
    decreases v, 0nat,
{
    let ghost rv = recs_view(v@);
    proof { lemma_recs_view(v@); }
    let mut i: usize = 0;
    assert(rv.subrange(0, 0) =~= Seq::<RecExprView<()>>::empty());
    while i < v.len()
        invariant
            i <= v@.len(),
            rv == recs_view(v@),
            rv.len() == v@.len(),
            forall|j: int| 0 <= j < v@.len() ==> #[trigger] rv[j] == rec_view(v@[j]),
            exprs_checkable(rv.subrange(0, i as int)),
        decreases v@.len() - i,
    {
        proof { assert(decreases_to!(v => v@[i as int])); }
        assert(rv.subrange(0, i + 1).drop_last() =~= rv.subrange(0, i as int));
        if !expr_is_checkable(&v[i]) {
            proof { lemma_exprs_prefix_fails(rv, i + 1); }
            return false;
        }
        i = i + 1;
    }
    assert(rv.subrange(0, v@.len() as int) =~= rv);
    true
}

proof fn lemma_exprs_prefix_fails(s: Seq<RecExprView<()>>, k: int)
    requires
        0 <= k <= s.len(),
        !exprs_checkable(s.subrange(0, k)),
    ensures
        !exprs_checkable(s),
    decreases s.len() - k,
{
    if k < s.len() {
        assert(s.drop_last().subrange(0, k) =~= s.subrange(0, k));
        lemma_exprs_prefix_fails(s.drop_last(), k);
    } else {
        assert(s.subrange(0, k) =~= s);
    }
}

proof fn lemma_stmts_prefix_fails(s: Seq<BaseExprView<()>>, k: int)
    requires
        0 <= k <= s.len(),
        !stmts_checkable(s.subrange(0, k)),
    ensures
        !stmts_checkable(s),
    decreases s.len() - k,
{
    if k < s.len() {
        assert(s.drop_last().subrange(0, k) =~= s.subrange(0, k));
        lemma_stmts_prefix_fails(s.drop_last(), k);
    } else {
        assert(s.subrange(0, k) =~= s);
    }
}

/// Whether the type checker handles a statement.
fn stmt_is_checkable(b: &BaseExpr<()>) -> (r: bool)
    ensures
        r == stmt_checkable(base_view(*b)),
    decreases b, 1nat,
{
    match &b.data {
        BaseExprData::PlusEqualsStatement { .. } => false,
        BaseExprData::Simple { expr } | BaseExprData::VariableAssignment { expr, .. } => expr_is_checkable(expr),
        BaseExprData::IfStatement { condition, body, else_statement } | BaseExprData::ElseIfStatement { condition, body, else_statement } => {
            let c = expr_is_checkable(condition);
            let bd = stmts_are_checkable(body);
            let el = match else_statement {
                Some(x) => {
                    let kind_ok = match &x.data {
                        BaseExprData::FunctionDefinition { .. } => false,
                        BaseExprData::Return { return_value: None } => false,
                        _ => true,
                    };
                    assert(kind_ok == else_kind_ok(base_view(**x)));
                    kind_ok && stmt_is_checkable(&**x)
                },
                None => true,
            };
            assert(el == match else_view(*else_statement) {
                Some(x) => stmt_checkable(*x) && else_kind_ok(*x),
                None => true,
            });
            c && bd && el
        },
        BaseExprData::ElseStatement { body } | BaseExprData::FunctionDefinition { body, .. } => stmts_are_checkable(body),
        BaseExprData::ForLoop { until, body, .. } => expr_is_checkable(until) && stmts_are_checkable(body),
        BaseExprData::Return { return_value } => match return_value {
            Some(e) => expr_is_checkable(e),
            None => true,
        },
        BaseExprData::Break => true,
    }
}

/// Whether the type checker handles every statement of a program (see `stmts_checkable`).
pub fn stmts_are_checkable(v: &Vec<BaseExpr<()>>) -> (r: bool)
    ensures
        r == stmts_checkable(bases_view(v@)),
    decreases v, 0nat,
{
    let ghost bv = bases_view(v@);
    proof { lemma_bases_view(v@); }
    let mut i: usize = 0;
    assert(bv.subrange(0, 0) =~= Seq::<BaseExprView<()>>::empty());
    while i < v.len()
        invariant
            i <= v@.len(),
            bv == bases_view(v@),
            bv.len() == v@.len(),
            forall|j: int| 0 <= j < v@.len() ==> #[trigger] bv[j] == base_view(v@[j]),
            stmts_checkable(bv.subrange(0, i as int)),
        decreases v@.len() - i,
    {
        proof { assert(decreases_to!(v => v@[i as int])); }
        assert(bv.subrange(0, i + 1).drop_last() =~= bv.subrange(0, i as int));
        if !stmt_is_checkable(&v[i]) {
            proof { lemma_stmts_prefix_fails(bv, i + 1); }
            return false;
        }
        i = i + 1;
    }
    assert(bv.subrange(0, v@.len() as int) =~= bv);
    true
}

} // verus!
