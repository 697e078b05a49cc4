//! Parsing token lines into base expressions (statements) and recursive expressions.
use vstd::prelude::*;
use crate::tokenizer::Error;
use crate::tokenizer::SymbolType;
use crate::tokenizer::Token;
use crate::tokenizer::TokenData;
use crate::tokenizer::TokenLine;
use crate::tokenizer::TokenView;
use crate::tokenizer::TokenDataView;
use crate::tokenizer::tokens_view;
use crate::tokenizer::token_lines_view;
use crate::tokenizer::tokenize;
use crate::tokenizer::tokenize_lines;
use crate::tokenizer::lines_view;
use crate::tokenizer::get_symbol_from_type;
use crate::tokenizer::symbol_text;
use crate::typechecker::Type;
use crate::typechecker::copy_type;
use crate::text::concat;
use crate::vecs::reversed;

verus! {

/// A statement of the language, with its place in the source and data of type `T`
/// (`()` after parsing, the statement's type after type checking).
#[derive(PartialEq, Debug)]
pub struct BaseExpr<T> {
    pub data: BaseExprData<T>,
    pub row: usize,
    pub col_start: usize,
    pub col_end: usize,
    pub generic_data: T,
}

/// The kinds of statements.
#[derive(PartialEq, Debug)]
pub enum BaseExprData<T> {
    Simple { expr: RecExpr<T> },
    VariableAssignment { var_name: String, expr: RecExpr<T> },
    PlusEqualsStatement { var_name: String, expr: RecExpr<T> },
    IfStatement {
        condition: RecExpr<T>,
        body: Vec<BaseExpr<T>>,
        else_statement: Option<Box<BaseExpr<T>>>,
    },
    ElseIfStatement {
        condition: RecExpr<T>,
        body: Vec<BaseExpr<T>>,
        else_statement: Option<Box<BaseExpr<T>>>,
    },
    ElseStatement { body: Vec<BaseExpr<T>> },
    ForLoop { var_name: String, until: RecExpr<T>, body: Vec<BaseExpr<T>> },
    FunctionDefinition { fun_name: String, args: Vec<String>, body: Vec<BaseExpr<T>> },
    Return { return_value: Option<RecExpr<T>> },
    Break,
}

/// An expression, with its place in the source and data of type `T`.
#[derive(PartialEq, Debug)]
pub struct RecExpr<T> {
    pub data: RecExprData<T>,
    pub row: usize,
    pub col_start: usize,
    pub col_end: usize,
    pub generic_data: T,
}

/// The kinds of expressions.
#[derive(PartialEq, Debug)]
pub enum RecExprData<T> {
    Variable { name: String },
    Number { number: i32 },
    String { value: String },
    Boolean { value: bool },
    Assign { variable_name: String, right: Box<RecExpr<T>> },
    Add { left: Box<RecExpr<T>>, right: Box<RecExpr<T>> },
    Subtract { left: Box<RecExpr<T>>, right: Box<RecExpr<T>> },
    Multiply { left: Box<RecExpr<T>>, right: Box<RecExpr<T>> },
    Divide { left: Box<RecExpr<T>>, right: Box<RecExpr<T>> },
    Power { left: Box<RecExpr<T>>, right: Box<RecExpr<T>> },
    Minus { right: Box<RecExpr<T>> },
    Or { left: Box<RecExpr<T>>, right: Box<RecExpr<T>> },
    And { left: Box<RecExpr<T>>, right: Box<RecExpr<T>> },
    Not { right: Box<RecExpr<T>> },
    Equals { left: Box<RecExpr<T>>, right: Box<RecExpr<T>> },
    NotEquals { left: Box<RecExpr<T>>, right: Box<RecExpr<T>> },
    GreaterThan { left: Box<RecExpr<T>>, right: Box<RecExpr<T>> },
    LessThan { left: Box<RecExpr<T>>, right: Box<RecExpr<T>> },
    GreaterThanOrEqual { left: Box<RecExpr<T>>, right: Box<RecExpr<T>> },
    LessThanOrEqual { left: Box<RecExpr<T>>, right: Box<RecExpr<T>> },
    Access { object: String, variable: String },
    FunctionCall { function_name: String, args: Vec<RecExpr<T>> },
    List { elements: Vec<RecExpr<T>> },
    ListAccess { variable: String, index: Box<RecExpr<T>> },
}

/// The binary operators of expressions.
#[derive(PartialEq, Eq, Structural, Clone, Copy, Debug)]
pub enum BinaryKind {
    Add,
    Subtract,
    Multiply,
    Divide,
    Power,
    Or,
    And,
    Equals,
    NotEquals,
    GreaterThan,
    LessThan,
    GreaterThanOrEqual,
    LessThanOrEqual,
}

/// The mathematical content of an expression.
pub struct RecExprView<T> {
    pub data: RecExprDataView<T>,
    pub row: int,
    pub col_start: int,
    pub col_end: int,
    pub generic_data: T,
}

/// The mathematical content of an expression's data.
pub enum RecExprDataView<T> {
    Variable(Seq<char>),
    Number(i32),
    Str(Seq<char>),
    Boolean(bool),
    Assign(Seq<char>, Box<RecExprView<T>>),
    Binary(BinaryKind, Box<RecExprView<T>>, Box<RecExprView<T>>),
    Minus(Box<RecExprView<T>>),
    Not(Box<RecExprView<T>>),
    Access(Seq<char>, Seq<char>),
    FunctionCall(Seq<char>, Seq<RecExprView<T>>),
    List(Seq<RecExprView<T>>),
    ListAccess(Seq<char>, Box<RecExprView<T>>),
}

/// The mathematical content of a statement.
pub struct BaseExprView<T> {
    pub data: BaseExprDataView<T>,
    pub row: int,
    pub col_start: int,
    pub col_end: int,
    pub generic_data: T,
}

/// The mathematical content of a statement's data.
pub enum BaseExprDataView<T> {
    Simple(RecExprView<T>),
    VariableAssignment(Seq<char>, RecExprView<T>),
    PlusEquals(Seq<char>, RecExprView<T>),
    If(RecExprView<T>, Seq<BaseExprView<T>>, Option<Box<BaseExprView<T>>>),
    ElseIf(RecExprView<T>, Seq<BaseExprView<T>>, Option<Box<BaseExprView<T>>>),
    Else(Seq<BaseExprView<T>>),
    ForLoop(Seq<char>, RecExprView<T>, Seq<BaseExprView<T>>),
    FunctionDefinition(Seq<char>, Seq<Seq<char>>, Seq<BaseExprView<T>>),
    Return(Option<RecExprView<T>>),
    Break,
}

/// The view of an expression.
pub open spec fn rec_view<T>(e: RecExpr<T>) -> RecExprView<T>
    decreases e,
{
    let data = match e.data {
        RecExprData::Variable { name } => RecExprDataView::Variable(name@),
        RecExprData::Number { number } => RecExprDataView::Number(number),
        RecExprData::String { value } => RecExprDataView::Str(value@),
        RecExprData::Boolean { value } => RecExprDataView::Boolean(value),
        RecExprData::Assign { variable_name, right } => RecExprDataView::Assign(
            variable_name@,
            Box::new(rec_view(*right)),
        ),
        RecExprData::Add { left, right } => RecExprDataView::Binary(BinaryKind::Add, Box::new(rec_view(*left)), Box::new(rec_view(*right))),
        RecExprData::Subtract { left, right } => RecExprDataView::Binary(BinaryKind::Subtract, Box::new(rec_view(*left)), Box::new(rec_view(*right))),
        RecExprData::Multiply { left, right } => RecExprDataView::Binary(BinaryKind::Multiply, Box::new(rec_view(*left)), Box::new(rec_view(*right))),
        RecExprData::Divide { left, right } => RecExprDataView::Binary(BinaryKind::Divide, Box::new(rec_view(*left)), Box::new(rec_view(*right))),
        RecExprData::Power { left, right } => RecExprDataView::Binary(BinaryKind::Power, Box::new(rec_view(*left)), Box::new(rec_view(*right))),
        RecExprData::Or { left, right } => RecExprDataView::Binary(BinaryKind::Or, Box::new(rec_view(*left)), Box::new(rec_view(*right))),
        RecExprData::And { left, right } => RecExprDataView::Binary(BinaryKind::And, Box::new(rec_view(*left)), Box::new(rec_view(*right))),
        RecExprData::Equals { left, right } => RecExprDataView::Binary(BinaryKind::Equals, Box::new(rec_view(*left)), Box::new(rec_view(*right))),
        RecExprData::NotEquals { left, right } => RecExprDataView::Binary(BinaryKind::NotEquals, Box::new(rec_view(*left)), Box::new(rec_view(*right))),
        RecExprData::GreaterThan { left, right } => RecExprDataView::Binary(BinaryKind::GreaterThan, Box::new(rec_view(*left)), Box::new(rec_view(*right))),
        RecExprData::LessThan { left, right } => RecExprDataView::Binary(BinaryKind::LessThan, Box::new(rec_view(*left)), Box::new(rec_view(*right))),
        RecExprData::GreaterThanOrEqual { left, right } => RecExprDataView::Binary(BinaryKind::GreaterThanOrEqual, Box::new(rec_view(*left)), Box::new(rec_view(*right))),
        RecExprData::LessThanOrEqual { left, right } => RecExprDataView::Binary(BinaryKind::LessThanOrEqual, Box::new(rec_view(*left)), Box::new(rec_view(*right))),
        RecExprData::Minus { right } => RecExprDataView::Minus(Box::new(rec_view(*right))),
        RecExprData::Not { right } => RecExprDataView::Not(Box::new(rec_view(*right))),
        RecExprData::Access { object, variable } => RecExprDataView::Access(object@, variable@),
        RecExprData::FunctionCall { function_name, args } => RecExprDataView::FunctionCall(
            function_name@,
            recs_view(args@),
        ),
        RecExprData::List { elements } => RecExprDataView::List(recs_view(elements@)),
        RecExprData::ListAccess { variable, index } => RecExprDataView::ListAccess(
            variable@,
            Box::new(rec_view(*index)),
        ),
    };
    RecExprView { data, row: e.row as int, col_start: e.col_start as int, col_end: e.col_end as int, generic_data: e.generic_data }
}

/// The views of a sequence of expressions.
pub open spec fn recs_view<T>(s: Seq<RecExpr<T>>) -> Seq<RecExprView<T>>
    decreases s,
{
    if s.len() == 0 {
        seq![]
    } else {
        recs_view(s.drop_last()).push(rec_view(s.last()))
    }
}

/// The view of a statement.
pub open spec fn base_view<T>(b: BaseExpr<T>) -> BaseExprView<T>
    decreases b,
{
    let data = match b.data {
        BaseExprData::Simple { expr } => BaseExprDataView::Simple(rec_view(expr)),
        BaseExprData::VariableAssignment { var_name, expr } => BaseExprDataView::VariableAssignment(var_name@, rec_view(expr)),
        BaseExprData::PlusEqualsStatement { var_name, expr } => BaseExprDataView::PlusEquals(var_name@, rec_view(expr)),
        BaseExprData::IfStatement { condition, body, else_statement } => BaseExprDataView::If(
            rec_view(condition),
            bases_view(body@),
            match else_statement {
                Some(e) => Some(Box::new(base_view(*e))),
                None => None,
            },
        ),
        BaseExprData::ElseIfStatement { condition, body, else_statement } => BaseExprDataView::ElseIf(
            rec_view(condition),
            bases_view(body@),
            match else_statement {
                Some(e) => Some(Box::new(base_view(*e))),
                None => None,
            },
        ),
        BaseExprData::ElseStatement { body } => BaseExprDataView::Else(bases_view(body@)),
        BaseExprData::ForLoop { var_name, until, body } => BaseExprDataView::ForLoop(var_name@, rec_view(until), bases_view(body@)),
        BaseExprData::FunctionDefinition { fun_name, args, body } => BaseExprDataView::FunctionDefinition(
            fun_name@,
            strings_view(args@),
            bases_view(body@),
        ),
        BaseExprData::Return { return_value } => BaseExprDataView::Return(
            match return_value {
                Some(e) => Some(rec_view(e)),
                None => None,
            },
        ),
        BaseExprData::Break => BaseExprDataView::Break,
    };
    BaseExprView { data, row: b.row as int, col_start: b.col_start as int, col_end: b.col_end as int, generic_data: b.generic_data }
}

/// The views of a sequence of statements.
pub open spec fn bases_view<T>(s: Seq<BaseExpr<T>>) -> Seq<BaseExprView<T>>
    decreases s,
{
    if s.len() == 0 {
        seq![]
    } else {
        bases_view(s.drop_last()).push(base_view(s.last()))
    }
}

/// The number of nodes of an expression.
pub open spec fn rec_size<T>(e: RecExprView<T>) -> nat
    decreases e,
{
    1 + match e.data {
        RecExprDataView::Assign(_, r) => rec_size(*r),
        RecExprDataView::Binary(_, l, r) => rec_size(*l) + rec_size(*r),
        RecExprDataView::Minus(r) => rec_size(*r),
        RecExprDataView::Not(r) => rec_size(*r),
        RecExprDataView::FunctionCall(_, args) => recs_size(args),
        RecExprDataView::List(els) => recs_size(els),
        RecExprDataView::ListAccess(_, i) => rec_size(*i),
        _ => 0,
    }
}

/// One more than the number of nodes of a sequence of expressions.
pub open spec fn recs_size<T>(s: Seq<RecExprView<T>>) -> nat
    decreases s,
{
    if s.len() == 0 {
        1
    } else {
        recs_size(s.drop_last()) + rec_size(s.last())
    }
}

/// The number of nodes of a statement and the expressions in it.
pub open spec fn stmt_size<T>(b: BaseExprView<T>) -> nat
    decreases b,
{
    1 + match b.data {
        BaseExprDataView::Simple(e) => rec_size(e),
        BaseExprDataView::VariableAssignment(_, e) => rec_size(e),
        BaseExprDataView::PlusEquals(_, e) => rec_size(e),
        BaseExprDataView::If(c, body, els) => rec_size(c) + stmts_size(body) + match els {
            Some(x) => stmt_size(*x),
            None => 0,
        },
        BaseExprDataView::ElseIf(c, body, els) => rec_size(c) + stmts_size(body) + match els {
            Some(x) => stmt_size(*x),
            None => 0,
        },
        BaseExprDataView::Else(body) => stmts_size(body),
        BaseExprDataView::ForLoop(_, u, body) => rec_size(u) + stmts_size(body),
        BaseExprDataView::FunctionDefinition(_, _, body) => stmts_size(body),
        BaseExprDataView::Return(r) => match r {
            Some(e) => rec_size(e),
            None => 0,
        },
        BaseExprDataView::Break => 0,
    }
}

/// One more than the number of nodes of a sequence of statements.
pub open spec fn stmts_size<T>(s: Seq<BaseExprView<T>>) -> nat
    decreases s,
{
    if s.len() == 0 {
        1
    } else {
        stmts_size(s.drop_last()) + stmt_size(s.last())
    }
}

/// Each expression of a sequence is smaller than the sequence.
pub proof fn lemma_recs_size<T>(s: Seq<RecExprView<T>>)
    ensures
        recs_size(s) >= 1,
        forall|i: int| 0 <= i < s.len() ==> rec_size(#[trigger] s[i]) < recs_size(s),
    decreases s.len(),
{
    if s.len() > 0 {
        lemma_recs_size(s.drop_last());
        assert forall|i: int| 0 <= i < s.len() implies rec_size(#[trigger] s[i]) < recs_size(s) by {
            if i < s.len() - 1 {
                assert(s[i] == s.drop_last()[i]);
            }
        }
    }
}

/// Each statement of a sequence is smaller than the sequence.
pub proof fn lemma_stmts_size<T>(s: Seq<BaseExprView<T>>)
    ensures
        stmts_size(s) >= 1,
        forall|i: int| 0 <= i < s.len() ==> stmt_size(#[trigger] s[i]) < stmts_size(s),
    decreases s.len(),
{
    if s.len() > 0 {
        lemma_stmts_size(s.drop_last());
        assert forall|i: int| 0 <= i < s.len() implies stmt_size(#[trigger] s[i]) < stmts_size(s) by {
            if i < s.len() - 1 {
                assert(s[i] == s.drop_last()[i]);
            }
        }
    }
}

/// The characters of each string.
pub open spec fn strings_view(s: Seq<String>) -> Seq<Seq<char>> {
    s.map_values(|x: String| x@)
}

impl<T> View for RecExpr<T> {
    type V = RecExprView<T>;

    open spec fn view(&self) -> RecExprView<T> {
        rec_view(*self)
    }
}

impl<T> View for BaseExpr<T> {
    type V = BaseExprView<T>;

    open spec fn view(&self) -> BaseExprView<T> {
        base_view(*self)
    }
}

/// `recs_view` is taken element by element.
pub proof fn lemma_recs_view<T>(s: Seq<RecExpr<T>>)
    ensures
        recs_view(s).len() == s.len(),
        forall|i: int| 0 <= i < s.len() ==> #[trigger] recs_view(s)[i] == rec_view(s[i]),
    decreases s.len(),
{
    if s.len() > 0 {
        lemma_recs_view(s.drop_last());
    }
}

/// `bases_view` is taken element by element.
pub proof fn lemma_bases_view<T>(s: Seq<BaseExpr<T>>)
    ensures
        bases_view(s).len() == s.len(),
        forall|i: int| 0 <= i < s.len() ==> #[trigger] bases_view(s)[i] == base_view(s[i]),
    decreases s.len(),
{
    if s.len() > 0 {
        lemma_bases_view(s.drop_last());
    }
}

/// Sequences whose elements have equal views have equal views.
pub proof fn lemma_recs_view_eq<T>(a: Seq<RecExpr<T>>, b: Seq<RecExpr<T>>)
    requires
        a.len() == b.len(),
        forall|i: int| 0 <= i < a.len() ==> rec_view(#[trigger] a[i]) == rec_view(b[i]),
    ensures
        recs_view(a) == recs_view(b),
{
    lemma_recs_view(a);
    lemma_recs_view(b);
    assert(recs_view(a) =~= recs_view(b));
}

/// Sequences whose elements have equal views have equal views.
pub proof fn lemma_bases_view_eq<T>(a: Seq<BaseExpr<T>>, b: Seq<BaseExpr<T>>)
    requires
        a.len() == b.len(),
        forall|i: int| 0 <= i < a.len() ==> base_view(#[trigger] a[i]) == base_view(b[i]),
    ensures
        bases_view(a) == bases_view(b),
{
    lemma_bases_view(a);
    lemma_bases_view(b);
    assert(bases_view(a) =~= bases_view(b));
}

/// Data attached to tree nodes that can be copied.
pub trait CopyData: Sized {
    /// A copy of the data.
    fn copy_data(&self) -> (r: Self)
        ensures
            r == *self,
    ;
}

impl CopyData for () {
    fn copy_data(&self) -> (r: Self) {
        ()
    }
}

impl CopyData for Type {
    fn copy_data(&self) -> (r: Self) {
        copy_type(self)
    }
}

/// A copy of a list of strings.
pub fn copy_strings(v: &Vec<String>) -> (r: Vec<String>)
    ensures
        strings_view(r@) == strings_view(v@),
        r@.len() == v@.len(),
        forall|i: int| 0 <= i < v@.len() ==> (#[trigger] r@[i])@ == v@[i]@,
{
    let mut r: Vec<String> = Vec::new();
    let mut i: usize = 0;
    while i < v.len()
        invariant
            i <= v@.len(),
            r@.len() == i,
            forall|j: int| 0 <= j < i ==> (#[trigger] r@[j])@ == v@[j]@,
        decreases v@.len() - i,
    {
        r.push(v[i].clone());
        i = i + 1;
    }
    assert(strings_view(r@) =~= strings_view(v@));
    r
}

/// A copy of a list of expressions.
pub fn copy_rec_exprs<T: CopyData>(v: &Vec<RecExpr<T>>) -> (r: Vec<RecExpr<T>>)
    ensures
        recs_view(r@) == recs_view(v@),
    decreases v, 0nat,
{
    let mut r: Vec<RecExpr<T>> = Vec::new();
    let mut i: usize = 0;
    while i < v.len()
        invariant
            i <= v@.len(),
            r@.len() == i,
            forall|j: int| 0 <= j < i ==> rec_view(#[trigger] r@[j]) == rec_view(v@[j]),
        decreases v@.len() - i,
    {
        proof { assert(decreases_to!(v => v@[i as int])); }
        r.push(copy_rec_expr(&v[i]));
        i = i + 1;
    }
    proof { lemma_recs_view_eq(r@, v@); }
    r
}

/// A copy of an expression.
pub fn copy_rec_expr<T: CopyData>(e: &RecExpr<T>) -> (r: RecExpr<T>)
    ensures
        rec_view(r) == rec_view(*e),
    decreases e, 1nat,
{
    let data = match &e.data {
        RecExprData::Variable { name } => RecExprData::Variable { name: name.clone() },
        RecExprData::Number { number } => RecExprData::Number { number: *number },
        RecExprData::String { value } => RecExprData::String { value: value.clone() },
        RecExprData::Boolean { value } => RecExprData::Boolean { value: *value },
        RecExprData::Assign { variable_name, right } => RecExprData::Assign { variable_name: variable_name.clone(), right: Box::new(copy_rec_expr(&**right)) },
        RecExprData::Add { left, right } => RecExprData::Add { left: Box::new(copy_rec_expr(&**left)), right: Box::new(copy_rec_expr(&**right)) },
        RecExprData::Subtract { left, right } => RecExprData::Subtract { left: Box::new(copy_rec_expr(&**left)), right: Box::new(copy_rec_expr(&**right)) },
        RecExprData::Multiply { left, right } => RecExprData::Multiply { left: Box::new(copy_rec_expr(&**left)), right: Box::new(copy_rec_expr(&**right)) },
        RecExprData::Divide { left, right } => RecExprData::Divide { left: Box::new(copy_rec_expr(&**left)), right: Box::new(copy_rec_expr(&**right)) },
        RecExprData::Power { left, right } => RecExprData::Power { left: Box::new(copy_rec_expr(&**left)), right: Box::new(copy_rec_expr(&**right)) },
        RecExprData::Minus { right } => RecExprData::Minus { right: Box::new(copy_rec_expr(&**right)) },
        RecExprData::Or { left, right } => RecExprData::Or { left: Box::new(copy_rec_expr(&**left)), right: Box::new(copy_rec_expr(&**right)) },
        RecExprData::And { left, right } => RecExprData::And { left: Box::new(copy_rec_expr(&**left)), right: Box::new(copy_rec_expr(&**right)) },
        RecExprData::Not { right } => RecExprData::Not { right: Box::new(copy_rec_expr(&**right)) },
        RecExprData::Equals { left, right } => RecExprData::Equals { left: Box::new(copy_rec_expr(&**left)), right: Box::new(copy_rec_expr(&**right)) },
        RecExprData::NotEquals { left, right } => RecExprData::NotEquals { left: Box::new(copy_rec_expr(&**left)), right: Box::new(copy_rec_expr(&**right)) },
        RecExprData::GreaterThan { left, right } => RecExprData::GreaterThan { left: Box::new(copy_rec_expr(&**left)), right: Box::new(copy_rec_expr(&**right)) },
        RecExprData::LessThan { left, right } => RecExprData::LessThan { left: Box::new(copy_rec_expr(&**left)), right: Box::new(copy_rec_expr(&**right)) },
        RecExprData::GreaterThanOrEqual { left, right } => RecExprData::GreaterThanOrEqual { left: Box::new(copy_rec_expr(&**left)), right: Box::new(copy_rec_expr(&**right)) },
        RecExprData::LessThanOrEqual { left, right } => RecExprData::LessThanOrEqual { left: Box::new(copy_rec_expr(&**left)), right: Box::new(copy_rec_expr(&**right)) },
        RecExprData::Access { object, variable } => RecExprData::Access { object: object.clone(), variable: variable.clone() },
        RecExprData::FunctionCall { function_name, args } => RecExprData::FunctionCall { function_name: function_name.clone(), args: copy_rec_exprs(args) },
        RecExprData::List { elements } => RecExprData::List { elements: copy_rec_exprs(elements) },
        RecExprData::ListAccess { variable, index } => RecExprData::ListAccess { variable: variable.clone(), index: Box::new(copy_rec_expr(&**index)) },
    };
    RecExpr { data, row: e.row, col_start: e.col_start, col_end: e.col_end, generic_data: e.generic_data.copy_data() }
}

/// A copy of a list of statements.
pub fn copy_base_exprs<T: CopyData>(v: &Vec<BaseExpr<T>>) -> (r: Vec<BaseExpr<T>>)
    ensures
        bases_view(r@) == bases_view(v@),
    decreases v, 0nat,
{
    let mut r: Vec<BaseExpr<T>> = Vec::new();
    let mut i: usize = 0;
    while i < v.len()
        invariant
            i <= v@.len(),
            r@.len() == i,
            forall|j: int| 0 <= j < i ==> base_view(#[trigger] r@[j]) == base_view(v@[j]),
        decreases v@.len() - i,
    {
        proof { assert(decreases_to!(v => v@[i as int])); }
        r.push(copy_base_expr(&v[i]));
        i = i + 1;
    }
    proof { lemma_bases_view_eq(r@, v@); }
    r
}

/// A copy of a statement.
pub fn copy_base_expr<T: CopyData>(b: &BaseExpr<T>) -> (r: BaseExpr<T>)
    ensures
        base_view(r) == base_view(*b),
    decreases b, 1nat,
{
    let data = match &b.data {
        BaseExprData::Simple { expr } => BaseExprData::Simple { expr: copy_rec_expr(expr) },
        BaseExprData::VariableAssignment { var_name, expr } => BaseExprData::VariableAssignment { var_name: var_name.clone(), expr: copy_rec_expr(expr) },
        BaseExprData::PlusEqualsStatement { var_name, expr } => BaseExprData::PlusEqualsStatement { var_name: var_name.clone(), expr: copy_rec_expr(expr) },
        BaseExprData::IfStatement { condition, body, else_statement } => BaseExprData::IfStatement {
            condition: copy_rec_expr(condition),
            body: copy_base_exprs(body),
            else_statement: match else_statement {
                Some(e) => Some(Box::new(copy_base_expr(&**e))),
                None => None,
            },
        },
        BaseExprData::ElseIfStatement { condition, body, else_statement } => BaseExprData::ElseIfStatement {
            condition: copy_rec_expr(condition),
            body: copy_base_exprs(body),
            else_statement: match else_statement {
                Some(e) => Some(Box::new(copy_base_expr(&**e))),
                None => None,
            },
        },
        BaseExprData::ElseStatement { body } => BaseExprData::ElseStatement { body: copy_base_exprs(body) },
        BaseExprData::ForLoop { var_name, until, body } => BaseExprData::ForLoop { var_name: var_name.clone(), until: copy_rec_expr(until), body: copy_base_exprs(body) },
        BaseExprData::FunctionDefinition { fun_name, args, body } => BaseExprData::FunctionDefinition { fun_name: fun_name.clone(), args: copy_strings(args), body: copy_base_exprs(body) },
        BaseExprData::Return { return_value } => BaseExprData::Return {
            return_value: match return_value {
                Some(e) => Some(copy_rec_expr(e)),
                None => None,
            },
        },
        BaseExprData::Break => BaseExprData::Break,
    };
    BaseExpr { data, row: b.row, col_start: b.col_start, col_end: b.col_end, generic_data: b.generic_data.copy_data() }
}

/// An error, as the parser's specification describes it: a message at a place in the
/// source, or a message without one.
pub enum ErrorView {
    Located(Seq<char>, int, int, int),
    Simple(Seq<char>),
}

/// Whether an error is the one the specification describes.
pub open spec fn error_matches(e: Error, v: ErrorView) -> bool {
    match v {
        ErrorView::Located(m, r, a, b) => e.is_located(m, r, a, b),
        ErrorView::Simple(m) => e matches Error::SimpleError { message } && message@ == m,
    }
}

// An expression before operators are resolved to expression kinds.
struct GenExpr {
    data: GenExprData,
    row: usize,
    col_start: usize,
    col_end: usize,
}

enum GenExprData {
    Variable { name: String },
    Number { number: i32 },
    String { value: String },
    Boolean { value: bool },
    UnaryOp { operator: SymbolType, operand: Box<GenExpr> },
    BinaryOp { left_operand: Box<GenExpr>, operator: SymbolType, right_operand: Box<GenExpr> },
    FunctionCall { function_name: String, arguments: Vec<GenExpr> },
    List { elements: Vec<GenExpr> },
    ListAccess { variable: String, index: Box<GenExpr> },
}

/// The mathematical content of a generic expression: operators are still symbols.
pub struct GenView {
    pub data: GenDataView,
    pub row: int,
    pub col_start: int,
    pub col_end: int,
}

/// The mathematical content of a generic expression's data.
pub enum GenDataView {
    Variable(Seq<char>),
    Number(i32),
    Str(Seq<char>),
    Boolean(bool),
    Unary(SymbolType, Box<GenView>),
    Binary(Box<GenView>, SymbolType, Box<GenView>),
    FunctionCall(Seq<char>, Seq<GenView>),
    List(Seq<GenView>),
    ListAccess(Seq<char>, Box<GenView>),
}

spec fn gen_view(g: GenExpr) -> GenView
    decreases g,
{
    let data = match g.data {
        GenExprData::Variable { name } => GenDataView::Variable(name@),
        GenExprData::Number { number } => GenDataView::Number(number),
        GenExprData::String { value } => GenDataView::Str(value@),
        GenExprData::Boolean { value } => GenDataView::Boolean(value),
        GenExprData::UnaryOp { operator, operand } => GenDataView::Unary(operator, Box::new(gen_view(*operand))),
        GenExprData::BinaryOp { left_operand, operator, right_operand } => GenDataView::Binary(
            Box::new(gen_view(*left_operand)),
            operator,
            Box::new(gen_view(*right_operand)),
        ),
        GenExprData::FunctionCall { function_name, arguments } => GenDataView::FunctionCall(function_name@, gens_view(arguments@)),
        GenExprData::List { elements } => GenDataView::List(gens_view(elements@)),
        GenExprData::ListAccess { variable, index } => GenDataView::ListAccess(variable@, Box::new(gen_view(*index))),
    };
    GenView { data, row: g.row as int, col_start: g.col_start as int, col_end: g.col_end as int }
}

spec fn gens_view(s: Seq<GenExpr>) -> Seq<GenView>
    decreases s,
{
    if s.len() == 0 {
        seq![]
    } else {
        gens_view(s.drop_last()).push(gen_view(s.last()))
    }
}

proof fn lemma_gens_view(s: Seq<GenExpr>)
    ensures
        gens_view(s).len() == s.len(),
        forall|i: int| 0 <= i < s.len() ==> #[trigger] gens_view(s)[i] == gen_view(s[i]),
    decreases s.len(),
{
    if s.len() > 0 {
        lemma_gens_view(s.drop_last());
    }
}

/// Whether a token is the given symbol.
pub open spec fn is_sym(t: TokenView, s: SymbolType) -> bool {
    t.data == TokenDataView::Symbol(s)
}

/// How a token changes the bracket depth when scanning from the right.
pub open spec fn depth_delta(t: TokenView) -> int {
    if is_sym(t, SymbolType::ParenthesisOpen) || is_sym(t, SymbolType::SquareBracketOpen) {
        -1
    } else if is_sym(t, SymbolType::ParenthesisClosed) || is_sym(t, SymbolType::SquareBracketClosed) {
        1
    } else {
        0
    }
}

/// The first of `syms` that the token is.
pub open spec fn first_match(t: TokenView, syms: Seq<SymbolType>) -> Option<SymbolType>
    decreases syms.len(),
{
    if syms.len() == 0 {
        None
    } else if is_sym(t, syms[0]) {
        Some(syms[0])
    } else {
        first_match(t, syms.subrange(1, syms.len() as int))
    }
}

/// Tokens after which a minus sign is unary.
pub open spec fn unary_minus_context(t: TokenView) -> bool {
    match t.data {
        TokenDataView::Symbol(s) => s == SymbolType::ParenthesisOpen || s == SymbolType::Comma
            || s == SymbolType::Equals || s == SymbolType::Plus || s == SymbolType::Minus
            || s == SymbolType::Star || s == SymbolType::Slash || s == SymbolType::Hat
            || s == SymbolType::Or || s == SymbolType::And || s == SymbolType::EqualsEquals
            || s == SymbolType::NotEquals || s == SymbolType::GreaterThan
            || s == SymbolType::LessThan || s == SymbolType::GreaterThanOrEqual
            || s == SymbolType::LessThanOrEqual,
        _ => false,
    }
}

/// Scans `ts[..i]` from the right, with bracket depth `depth`, for the last top-level
/// token among `syms`; a minus sign counts only where it is binary, and a minus sign
/// at the very start ends the search with nothing.
pub open spec fn last_occ_from(ts: Seq<TokenView>, syms: Seq<SymbolType>, i: int, depth: int) -> Option<(SymbolType, int)>
    decreases i,
{
    if i <= 0 || i > ts.len() {
        None
    } else {
        let k = i - 1;
        let d = depth + depth_delta(ts[k]);
        if d > 0 {
            last_occ_from(ts, syms, k, d)
        } else {
            match first_match(ts[k], syms) {
                None => last_occ_from(ts, syms, k, d),
                Some(sym) => if sym == SymbolType::Minus {
                    if k == 0 {
                        None
                    } else if unary_minus_context(ts[k - 1]) {
                        last_occ_from(ts, syms, k, d)
                    } else {
                        Some((sym, k))
                    }
                } else {
                    Some((sym, k))
                },
            }
        }
    }
}

/// The last top-level occurrence in `ts` of one of `syms`, with its index.
pub open spec fn last_occurrence(ts: Seq<TokenView>, syms: Seq<SymbolType>) -> Option<(SymbolType, int)> {
    last_occ_from(ts, syms, ts.len() as int, 0)
}

/// The operators of each precedence level, from the loosest binding (1) to the tightest (7).
pub open spec fn precedence(level: int) -> Seq<SymbolType> {
    if level == 1 {
        seq![SymbolType::Or]
    } else if level == 2 {
        seq![SymbolType::And]
    } else if level == 3 {
        seq![SymbolType::EqualsEquals, SymbolType::NotEquals]
    } else if level == 4 {
        seq![SymbolType::GreaterThan, SymbolType::LessThan, SymbolType::GreaterThanOrEqual, SymbolType::LessThanOrEqual]
    } else if level == 5 {
        seq![SymbolType::Plus, SymbolType::Minus]
    } else if level == 6 {
        seq![SymbolType::Star, SymbolType::Slash]
    } else {
        seq![SymbolType::Hat]
    }
}

/// `x - 1`, or `0` for `0`.
pub open spec fn sat_dec(x: int) -> int {
    if x > 0 { x - 1 } else { 0 }
}

/// The generic expression spelled by `ts`: the loosest-binding top-level operator splits
/// it (the last one among equals); `not` binds between levels and unary minus tighter
/// than every binary operator; otherwise
/// it is a call, list, list access, parenthesised expression or a single literal.
pub open spec fn gen(ts: Seq<TokenView>) -> Result<GenView, ErrorView>
    decreases ts.len(), 5int, 0int,
{
    if let Some((s, i)) = last_occurrence(ts, precedence(1)) {
        gen_binop(ts, s, i)
    } else if let Some((s, i)) = last_occurrence(ts, precedence(2)) {
        gen_binop(ts, s, i)
    } else if let Some((s, i)) = last_occurrence(ts, precedence(3)) {
        gen_binop(ts, s, i)
    } else if ts.len() > 0 && is_sym(ts[0], SymbolType::Not) {
        gen_unary(ts, SymbolType::Not)
    } else if let Some((s, i)) = last_occurrence(ts, precedence(4)) {
        gen_binop(ts, s, i)
    } else if let Some((s, i)) = last_occurrence(ts, precedence(5)) {
        gen_binop(ts, s, i)
    } else if let Some((s, i)) = last_occurrence(ts, precedence(6)) {
        gen_binop(ts, s, i)
    } else if let Some((s, i)) = last_occurrence(ts, precedence(7)) {
        gen_binop(ts, s, i)
    } else if ts.len() > 0 && is_sym(ts[0], SymbolType::Minus) {
        gen_unary(ts, SymbolType::Minus)
    } else {
        gen_atom(ts)
    }
}

/// `ts` split at the operator at index `i`.
pub open spec fn gen_binop(ts: Seq<TokenView>, s: SymbolType, i: int) -> Result<GenView, ErrorView>
    decreases ts.len(), 4int, 0int,
{
    if 0 <= i < ts.len() {
        match (gen(ts.subrange(0, i)), gen(ts.subrange(i + 1, ts.len() as int))) {
            (Ok(l), Ok(r)) => Ok(
                GenView {
                    data: GenDataView::Binary(Box::new(l), s, Box::new(r)),
                    row: l.row,
                    col_start: l.col_start,
                    col_end: r.col_end,
                },
            ),
            (Err(e), _) => Err(e),
            (_, Err(e)) => Err(e),
        }
    } else {
        Err(ErrorView::Simple("No expression found"@))
    }
}

/// `ts` as a prefix operator applied to the rest.
pub open spec fn gen_unary(ts: Seq<TokenView>, op: SymbolType) -> Result<GenView, ErrorView>
    decreases ts.len(), 3int, 0int,
{
    if ts.len() > 0 {
        match gen(ts.subrange(1, ts.len() as int)) {
            Ok(e) => Ok(
                GenView {
                    data: GenDataView::Unary(op, Box::new(e)),
                    row: ts[0].row,
                    col_start: ts[0].col_start,
                    col_end: e.col_end,
                },
            ),
            Err(e) => Err(e),
        }
    } else {
        Err(ErrorView::Simple("No expression found"@))
    }
}

/// A literal or single token, a call, a list, a list access or a parenthesised expression.
pub open spec fn gen_atom(ts: Seq<TokenView>) -> Result<GenView, ErrorView>
    decreases ts.len(), 4int, 0int,
{
    let n = ts.len() as int;
    if n >= 3 && ts[0].data is Variable && is_sym(ts[1], SymbolType::ParenthesisOpen) && is_sym(ts[n - 1], SymbolType::ParenthesisClosed) {
        let rest = ts.subrange(2, n);
        match read_seq(rest, SymbolType::ParenthesisClosed, SymbolType::SquareBracketClosed) {
            Ok(args) => Ok(
                GenView {
                    data: GenDataView::FunctionCall(ts[0].data->Variable_0, args),
                    row: ts[0].row,
                    col_start: ts[0].col_start,
                    col_end: ts[n - 1].col_end,
                },
            ),
            Err(_) => Err(ErrorView::Located("Could not find a valid function call"@, rest[0].row, rest[0].col_start, sat_dec(rest[rest.len() - 1].col_end))),
        }
    } else if n >= 2 && is_sym(ts[0], SymbolType::SquareBracketOpen) && is_sym(ts[n - 1], SymbolType::SquareBracketClosed) {
        let rest = ts.subrange(1, n);
        match read_seq(rest, SymbolType::SquareBracketClosed, SymbolType::ParenthesisClosed) {
            Ok(items) => Ok(
                GenView {
                    data: GenDataView::List(items),
                    row: ts[0].row,
                    col_start: ts[0].col_start,
                    col_end: ts[n - 1].col_end,
                },
            ),
            Err(_) => Err(ErrorView::Located("Could not find a valid list"@, rest[0].row, rest[0].col_start, sat_dec(rest[rest.len() - 1].col_end))),
        }
    } else if n >= 3 && ts[0].data is Variable && is_sym(ts[1], SymbolType::SquareBracketOpen) && is_sym(ts[n - 1], SymbolType::SquareBracketClosed) {
        match gen(ts.subrange(2, n - 1)) {
            Ok(index) => Ok(
                GenView {
                    data: GenDataView::ListAccess(ts[0].data->Variable_0, Box::new(index)),
                    row: ts[0].row,
                    col_start: ts[0].col_start,
                    col_end: ts[n - 1].col_end,
                },
            ),
            Err(e) => Err(e),
        }
    } else if n >= 2 && is_sym(ts[0], SymbolType::ParenthesisOpen) && is_sym(ts[n - 1], SymbolType::ParenthesisClosed) {
        match gen(ts.subrange(1, n - 1)) {
            Ok(e) => Ok(GenView { col_start: ts[0].col_start, col_end: ts[n - 1].col_end, ..e }),
            Err(e) => Err(e),
        }
    } else if n >= 1 && is_sym(ts[0], SymbolType::Not) {
        gen_unary(ts, SymbolType::Not)
    } else if n == 1 && ts[0].data is Variable {
        Ok(GenView { data: GenDataView::Variable(ts[0].data->Variable_0), row: ts[0].row, col_start: ts[0].col_start, col_end: ts[0].col_end })
    } else if n == 1 && ts[0].data is Number {
        Ok(GenView { data: GenDataView::Number(ts[0].data->Number_0), row: ts[0].row, col_start: ts[0].col_start, col_end: ts[0].col_end })
    } else if n >= 1 && is_sym(ts[0], SymbolType::Minus) {
        gen_unary(ts, SymbolType::Minus)
    } else if n == 1 && ts[0].data is Str {
        Ok(GenView { data: GenDataView::Str(ts[0].data->Str_0), row: ts[0].row, col_start: ts[0].col_start, col_end: ts[0].col_end })
    } else if n == 1 && is_sym(ts[0], SymbolType::True) {
        Ok(GenView { data: GenDataView::Boolean(true), row: ts[0].row, col_start: ts[0].col_start, col_end: ts[0].col_end })
    } else if n == 1 && is_sym(ts[0], SymbolType::False) {
        Ok(GenView { data: GenDataView::Boolean(false), row: ts[0].row, col_start: ts[0].col_start, col_end: ts[0].col_end })
    } else if n >= 1 {
        Err(ErrorView::Located("No expression found"@, ts[0].row, ts[0].col_start, ts[n - 1].col_end))
    } else {
        Err(ErrorView::Simple("No expression found"@))
    }
}

/// The comma-separated expressions of `ts` up to the closing symbol `close`.
pub open spec fn read_seq(ts: Seq<TokenView>, close: SymbolType, other: SymbolType) -> Result<Seq<GenView>, ErrorView>
    decreases ts.len(), 3int, 0int,
{
    match read_one(ts, close, other) {
        Err(e) => Err(e),
        Ok(None) => Ok(seq![]),
        Ok(Some((p, k))) => if 1 <= k <= ts.len() {
            match read_seq(ts.subrange(k, ts.len() as int), close, other) {
                Ok(ps) => Ok(seq![p] + ps),
                Err(e) => Err(e),
            }
        } else {
            Err(ErrorView::Simple("Could not find a valid function call"@))
        },
    }
}

/// The next item of a comma-separated sequence and where the rest starts, or `None` at
/// the closing symbol.
pub open spec fn read_one(ts: Seq<TokenView>, close: SymbolType, other: SymbolType) -> Result<Option<(GenView, int)>, ErrorView>
    decreases ts.len(), 2int, 0int,
{
    if ts.len() > 0 && is_sym(ts[0], close) {
        Ok(None)
    } else if ts.len() <= 1 {
        Err(ErrorView::Simple("Could not find a valid function call"@))
    } else {
        let d0: int = if is_sym(ts[0], SymbolType::ParenthesisOpen) || is_sym(ts[0], SymbolType::SquareBracketOpen) { 2 } else { 1 };
        read_scan(ts, close, other, 1, d0)
    }
}

/// Scans for the end of the next item from index `i` at bracket depth `depth`: a comma at
/// depth one ends it when what precedes parses, and the closing symbol that brings the
/// depth to zero ends it in any case.
pub open spec fn read_scan(ts: Seq<TokenView>, close: SymbolType, other: SymbolType, i: int, depth: int) -> Result<Option<(GenView, int)>, ErrorView>
    decreases ts.len(), 1int, ts.len() - i,
{
    if i < 1 || i >= ts.len() {
        Err(ErrorView::Simple("Could not find a valid function call"@))
    } else {
        let t = ts[i];
        if is_sym(t, SymbolType::Comma) {
            if depth == 1 {
                match gen(ts.subrange(0, i)) {
                    Ok(e) => Ok(Some((e, i + 1))),
                    Err(_) => read_scan(ts, close, other, i + 1, depth),
                }
            } else {
                read_scan(ts, close, other, i + 1, depth)
            }
        } else if is_sym(t, SymbolType::ParenthesisOpen) || is_sym(t, SymbolType::SquareBracketOpen) {
            read_scan(ts, close, other, i + 1, depth + 1)
        } else if is_sym(t, other) {
            read_scan(ts, close, other, i + 1, depth - 1)
        } else if is_sym(t, close) {
            if depth - 1 == 0 {
                match gen(ts.subrange(0, i)) {
                    Ok(e) => Ok(Some((e, i))),
                    Err(e) => Err(e),
                }
            } else {
                read_scan(ts, close, other, i + 1, depth - 1)
            }
        } else {
            read_scan(ts, close, other, i + 1, depth)
        }
    }
}

/// The views of tokens `lo..hi`.
pub open spec fn tv(tokens: Seq<Token>, lo: int, hi: int) -> Seq<TokenView> {
    tokens_view(tokens).subrange(lo, hi)
}

proof fn lemma_tv_sub(tokens: Seq<Token>, lo: int, hi: int, a: int, b: int)
    requires
        0 <= lo <= hi <= tokens.len(),
        0 <= a <= b <= hi - lo,
    ensures
        tv(tokens, lo, hi).subrange(a, b) == tv(tokens, lo + a, lo + b),
{
    assert(tv(tokens, lo, hi).subrange(a, b) =~= tv(tokens, lo + a, lo + b));
}

spec fn gen_matches(r: Result<GenExpr, Error>, s: Result<GenView, ErrorView>) -> bool {
    match (r, s) {
        (Ok(g), Ok(v)) => gen_view(g) == v,
        (Err(e), Err(v)) => error_matches(e, v),
        _ => false,
    }
}

fn token_is(t: &Token, s: SymbolType) -> (r: bool)
    ensures
        r == is_sym(t@, s),
{
    match &t.data {
        TokenData::Symbol { symbol_type } => *symbol_type == s,
        _ => false,
    }
}

fn precedence_symbols(level: u8) -> (r: Vec<SymbolType>)
    ensures
        r@ == precedence(level as int),
{
    if level == 1 {
        vec![SymbolType::Or]
    } else if level == 2 {
        vec![SymbolType::And]
    } else if level == 3 {
        vec![SymbolType::EqualsEquals, SymbolType::NotEquals]
    } else if level == 4 {
        vec![SymbolType::GreaterThan, SymbolType::LessThan, SymbolType::GreaterThanOrEqual, SymbolType::LessThanOrEqual]
    } else if level == 5 {
        vec![SymbolType::Plus, SymbolType::Minus]
    } else if level == 6 {
        vec![SymbolType::Star, SymbolType::Slash]
    } else {
        vec![SymbolType::Hat]
    }
}

fn first_match_exec(t: &Token, syms: &Vec<SymbolType>) -> (r: Option<SymbolType>)
    ensures
        r == first_match(t@, syms@),
{
    let mut j: usize = 0;
    assert(syms@.subrange(0, syms@.len() as int) =~= syms@);
    while j < syms.len()
        invariant
            j <= syms@.len(),
            first_match(t@, syms@) == first_match(t@, syms@.subrange(j as int, syms@.len() as int)),
        decreases syms@.len() - j,
    {
        assert(syms@.subrange(j as int, syms@.len() as int).subrange(1, syms@.len() - j) =~= syms@.subrange(j + 1, syms@.len() as int));
        if token_is(t, syms[j]) {
            return Some(syms[j]);
        }
        j = j + 1;
    }
    None
}

fn unary_minus_before(t: &Token) -> (r: bool)
    ensures
        r == unary_minus_context(t@),
{
    match &t.data {
        TokenData::Symbol { symbol_type } => {
            let s = *symbol_type;
            s == SymbolType::ParenthesisOpen || s == SymbolType::Comma || s == SymbolType::Equals
                || s == SymbolType::Plus || s == SymbolType::Minus || s == SymbolType::Star
                || s == SymbolType::Slash || s == SymbolType::Hat || s == SymbolType::Or
                || s == SymbolType::And || s == SymbolType::EqualsEquals
                || s == SymbolType::NotEquals || s == SymbolType::GreaterThan
                || s == SymbolType::LessThan || s == SymbolType::GreaterThanOrEqual
                || s == SymbolType::LessThanOrEqual
        },
        _ => false,
    }
}

fn depth_delta_exec(t: &Token) -> (r: i128)
    ensures
        r == depth_delta(t@),
{
    if token_is(t, SymbolType::ParenthesisOpen) || token_is(t, SymbolType::SquareBracketOpen) {
        -1
    } else if token_is(t, SymbolType::ParenthesisClosed) || token_is(t, SymbolType::SquareBracketClosed) {
        1
    } else {
        0
    }
}

/// The last top-level occurrence in `tokens[lo..hi]` of one of `match_on`, with its index
/// relative to `lo`; a minus sign after an operator, comma or opening parenthesis is unary
/// and does not count.
fn get_last_occurence(tokens: &Vec<Token>, lo: usize, hi: usize, match_on: &Vec<SymbolType>) -> (r: Result<(SymbolType, usize), Error>)
    requires
        lo <= hi <= tokens@.len(),
    ensures
        r matches Ok((s, i)) ==> last_occurrence(tv(tokens@, lo as int, hi as int), match_on@) == Some((s, i as int)),
        r is Err ==> last_occurrence(tv(tokens@, lo as int, hi as int), match_on@) is None,
{
    let ghost ts = tv(tokens@, lo as int, hi as int);
    let mut depth: i128 = 0;
    let mut i = hi;
    while i > lo
        invariant
            lo <= i <= hi <= tokens@.len(),
            ts == tv(tokens@, lo as int, hi as int),
            last_occurrence(ts, match_on@) == last_occ_from(ts, match_on@, i - lo, depth as int),
            -((hi - i) as int) <= depth <= hi - i,
        decreases i - lo,
    {
        let k = i - 1;
        assert(ts[k - lo] == tokens@[k as int]@);
        depth = depth + depth_delta_exec(&tokens[k]);
        if depth > 0 {
            i = k;
            continue;
        }
        match first_match_exec(&tokens[k], match_on) {
            None => {
                i = k;
            },
            Some(sym) => {
                if sym == SymbolType::Minus {
                    if k == lo {
                        return Err(Error::SimpleError { message: String::from_str("No occurances found") });
                    }
                    assert(ts[k - lo - 1] == tokens@[k - 1]@);
                    if unary_minus_before(&tokens[k - 1]) {
                        i = k;
                        continue;
                    }
                    return Ok((sym, k - lo));
                }
                return Ok((sym, k - lo));
            },
        }
    }
    Err(Error::SimpleError { message: String::from_str("No occurances found") })
}

fn no_expression_at(tokens: &Vec<Token>, a: usize, b: usize) -> (r: Error)
    requires
        a < tokens@.len(),
        b < tokens@.len(),
    ensures
        r.is_located("No expression found"@, tokens@[a as int].row as int, tokens@[a as int].col_start as int, tokens@[b as int].col_end as int),
{
    Error::LocationError {
        message: String::from_str("No expression found"),
        row: tokens[a].row,
        col_start: tokens[a].col_start,
        col_end: tokens[b].col_end,
    }
}

/// Parses `tokens[lo..hi]` into a generic expression.
fn get_generic_expression(tokens: &Vec<Token>, lo: usize, hi: usize) -> (r: Result<GenExpr, Error>)
    requires
        lo <= hi <= tokens@.len(),
    ensures
        gen_matches(r, gen(tv(tokens@, lo as int, hi as int))),
    decreases hi - lo, 5int,
{
    let ghost ts = tv(tokens@, lo as int, hi as int);
    let mut level: u8 = 1;
    while level <= 3
        invariant
            1 <= level <= 4,
            lo <= hi <= tokens@.len(),
            ts == tv(tokens@, lo as int, hi as int),
            forall|l: int| 1 <= l < level ==> last_occurrence(ts, #[trigger] precedence(l)) is None,
        decreases 4 - level,
    {
        let syms = precedence_symbols(level);
        if let Ok((s, i)) = get_last_occurence(tokens, lo, hi, &syms) {
            return gen_binop_exec(tokens, lo, hi, s, i);
        }
        level = level + 1;
    }
    if hi > lo && token_is(&tokens[lo], SymbolType::Not) {
        assert(ts[0] == tokens@[lo as int]@);
        return gen_unary_exec(tokens, lo, hi, SymbolType::Not);
    }
    while level <= 6
        invariant
            4 <= level <= 7,
            lo <= hi <= tokens@.len(),
            ts == tv(tokens@, lo as int, hi as int),
            forall|l: int| 1 <= l < level ==> last_occurrence(ts, #[trigger] precedence(l)) is None,
            !(ts.len() > 0 && is_sym(ts[0], SymbolType::Not)),
        decreases 7 - level,
    {
        let syms = precedence_symbols(level);
        if let Ok((s, i)) = get_last_occurence(tokens, lo, hi, &syms) {
            return gen_binop_exec(tokens, lo, hi, s, i);
        }
        level = level + 1;
    }
    let syms = precedence_symbols(7);
    if let Ok((s, i)) = get_last_occurence(tokens, lo, hi, &syms) {
        return gen_binop_exec(tokens, lo, hi, s, i);
    }
    if hi > lo && token_is(&tokens[lo], SymbolType::Minus) {
        assert(ts[0] == tokens@[lo as int]@);
        return gen_unary_exec(tokens, lo, hi, SymbolType::Minus);
    }
    proof {
        assert(last_occurrence(ts, precedence(1)) is None);
        assert(last_occurrence(ts, precedence(2)) is None);
        assert(last_occurrence(ts, precedence(3)) is None);
        assert(last_occurrence(ts, precedence(4)) is None);
        assert(last_occurrence(ts, precedence(5)) is None);
        assert(last_occurrence(ts, precedence(6)) is None);
    }
    gen_atom_exec(tokens, lo, hi)
}

fn gen_binop_exec(tokens: &Vec<Token>, lo: usize, hi: usize, s: SymbolType, i: usize) -> (r: Result<GenExpr, Error>)
    requires
        lo <= hi <= tokens@.len(),
        last_occurrence(tv(tokens@, lo as int, hi as int), precedence(1)) == Some((s, i as int))
            || last_occurrence(tv(tokens@, lo as int, hi as int), precedence(2)) == Some((s, i as int))
            || last_occurrence(tv(tokens@, lo as int, hi as int), precedence(3)) == Some((s, i as int))
            || last_occurrence(tv(tokens@, lo as int, hi as int), precedence(4)) == Some((s, i as int))
            || last_occurrence(tv(tokens@, lo as int, hi as int), precedence(5)) == Some((s, i as int))
            || last_occurrence(tv(tokens@, lo as int, hi as int), precedence(6)) == Some((s, i as int))
            || last_occurrence(tv(tokens@, lo as int, hi as int), precedence(7)) == Some((s, i as int)),
    ensures
        gen_matches(r, gen_binop(tv(tokens@, lo as int, hi as int), s, i as int)),
    decreases hi - lo, 4int,
{
    let ghost ts = tv(tokens@, lo as int, hi as int);
    proof {
        lemma_last_occ_in_range(ts, precedence(1), ts.len() as int, 0);
        lemma_last_occ_in_range(ts, precedence(2), ts.len() as int, 0);
        lemma_last_occ_in_range(ts, precedence(3), ts.len() as int, 0);
        lemma_last_occ_in_range(ts, precedence(4), ts.len() as int, 0);
        lemma_last_occ_in_range(ts, precedence(5), ts.len() as int, 0);
        lemma_last_occ_in_range(ts, precedence(6), ts.len() as int, 0);
        lemma_last_occ_in_range(ts, precedence(7), ts.len() as int, 0);
        lemma_tv_sub(tokens@, lo as int, hi as int, 0, i as int);
        lemma_tv_sub(tokens@, lo as int, hi as int, i as int + 1, hi - lo);
    }
    let left = get_generic_expression(tokens, lo, lo + i);
    let right = get_generic_expression(tokens, lo + i + 1, hi);
    match (left, right) {
        (Ok(left_expr), Ok(right_expr)) => {
            let row = left_expr.row;
            let col_start = left_expr.col_start;
            let col_end = right_expr.col_end;
            Ok(GenExpr {
                data: GenExprData::BinaryOp { left_operand: Box::new(left_expr), operator: s, right_operand: Box::new(right_expr) },
                row,
                col_start,
                col_end,
            })
        },
        (Err(e), _) => Err(e),
        (_, Err(e)) => Err(e),
    }
}

proof fn lemma_last_occ_in_range(ts: Seq<TokenView>, syms: Seq<SymbolType>, i: int, depth: int)
    ensures
        last_occ_from(ts, syms, i, depth) matches Some((_, k)) ==> 0 <= k < i && k < ts.len(),
    decreases i,
{
    if 0 < i <= ts.len() {
        let k = i - 1;
        let d = depth + depth_delta(ts[k]);
        lemma_last_occ_in_range(ts, syms, k, d);
    }
}

fn gen_unary_exec(tokens: &Vec<Token>, lo: usize, hi: usize, op: SymbolType) -> (r: Result<GenExpr, Error>)
    requires
        lo < hi <= tokens@.len(),
    ensures
        gen_matches(r, gen_unary(tv(tokens@, lo as int, hi as int), op)),
    decreases hi - lo, 3int,
{
    proof { lemma_tv_sub(tokens@, lo as int, hi as int, 1, hi - lo); }
    match get_generic_expression(tokens, lo + 1, hi) {
        Ok(expr) => {
            let expr_col_end = expr.col_end;
            Ok(GenExpr {
                data: GenExprData::UnaryOp { operator: op, operand: Box::new(expr) },
                row: tokens[lo].row,
                col_start: tokens[lo].col_start,
                col_end: expr_col_end,
            })
        },
        Err(e) => Err(e),
    }
}

fn token_is_variable(t: &Token) -> (r: bool)
    ensures
        r == (t@.data is Variable),
{
    match &t.data {
        TokenData::Variable { .. } => true,
        _ => false,
    }
}

fn token_variable_name(t: &Token) -> (r: String)
    requires
        t@.data is Variable,
    ensures
        r@ == t@.data->Variable_0,
{
    match &t.data {
        TokenData::Variable { name } => name.clone(),
        _ => String::new(),
    }
}

fn gen_atom_exec(tokens: &Vec<Token>, lo: usize, hi: usize) -> (r: Result<GenExpr, Error>)
    requires
        lo <= hi <= tokens@.len(),
    ensures
        gen_matches(r, gen_atom(tv(tokens@, lo as int, hi as int))),
    decreases hi - lo, 4int,
{
    let ghost ts = tv(tokens@, lo as int, hi as int);
    let n = hi - lo;
    if n >= 1 {
        assert(ts[0] == tokens@[lo as int]@);
        assert(ts[n - 1] == tokens@[hi - 1]@);
    }
    if n >= 2 {
        assert(ts[1] == tokens@[lo + 1]@);
    }
    if n >= 3 && token_is_variable(&tokens[lo]) && token_is(&tokens[lo + 1], SymbolType::ParenthesisOpen) && token_is(&tokens[hi - 1], SymbolType::ParenthesisClosed) {
        proof { lemma_tv_sub(tokens@, lo as int, hi as int, 2, n as int); }
        match read_seq_exec(tokens, lo + 2, hi, SymbolType::ParenthesisClosed, SymbolType::SquareBracketClosed) {
            Ok(arguments) => {
                return Ok(GenExpr {
                    data: GenExprData::FunctionCall { function_name: token_variable_name(&tokens[lo]), arguments },
                    row: tokens[lo].row,
                    col_start: tokens[lo].col_start,
                    col_end: tokens[hi - 1].col_end,
                });
            },
            Err(_) => {
                assert(tv(tokens@, lo + 2, hi as int)[0] == tokens@[lo + 2]@);
                let e = tokens[hi - 1].col_end;
                return Err(Error::LocationError {
                    message: String::from_str("Could not find a valid function call"),
                    row: tokens[lo + 2].row,
                    col_start: tokens[lo + 2].col_start,
                    col_end: if e > 0 { e - 1 } else { 0 },
                });
            },
        }
    }
    if n >= 2 && token_is(&tokens[lo], SymbolType::SquareBracketOpen) && token_is(&tokens[hi - 1], SymbolType::SquareBracketClosed) {
        proof { lemma_tv_sub(tokens@, lo as int, hi as int, 1, n as int); }
        match read_seq_exec(tokens, lo + 1, hi, SymbolType::SquareBracketClosed, SymbolType::ParenthesisClosed) {
            Ok(elements) => {
                return Ok(GenExpr {
                    data: GenExprData::List { elements },
                    row: tokens[lo].row,
                    col_start: tokens[lo].col_start,
                    col_end: tokens[hi - 1].col_end,
                });
            },
            Err(_) => {
                assert(tv(tokens@, lo + 1, hi as int)[0] == tokens@[lo + 1]@);
                let e = tokens[hi - 1].col_end;
                return Err(Error::LocationError {
                    message: String::from_str("Could not find a valid list"),
                    row: tokens[lo + 1].row,
                    col_start: tokens[lo + 1].col_start,
                    col_end: if e > 0 { e - 1 } else { 0 },
                });
            },
        }
    }
    if n >= 3 && token_is_variable(&tokens[lo]) && token_is(&tokens[lo + 1], SymbolType::SquareBracketOpen) && token_is(&tokens[hi - 1], SymbolType::SquareBracketClosed) {
        proof { lemma_tv_sub(tokens@, lo as int, hi as int, 2, n - 1); }
        match get_generic_expression(tokens, lo + 2, hi - 1) {
            Ok(index) => {
                return Ok(GenExpr {
                    data: GenExprData::ListAccess { variable: token_variable_name(&tokens[lo]), index: Box::new(index) },
                    row: tokens[lo].row,
                    col_start: tokens[lo].col_start,
                    col_end: tokens[hi - 1].col_end,
                });
            },
            Err(e) => return Err(e),
        }
    }
    if n >= 2 && token_is(&tokens[lo], SymbolType::ParenthesisOpen) && token_is(&tokens[hi - 1], SymbolType::ParenthesisClosed) {
        proof { lemma_tv_sub(tokens@, lo as int, hi as int, 1, n - 1); }
        match get_generic_expression(tokens, lo + 1, hi - 1) {
            Ok(expr) => {
                let mut expr = expr;
                expr.col_start = tokens[lo].col_start;
                expr.col_end = tokens[hi - 1].col_end;
                return Ok(expr);
            },
            Err(e) => return Err(e),
        }
    }
    if n >= 1 && token_is(&tokens[lo], SymbolType::Not) {
        return gen_unary_exec(tokens, lo, hi, SymbolType::Not);
    }
    if n == 1 {
        match &tokens[lo].data {
            TokenData::Variable { name } => {
                return Ok(GenExpr { data: GenExprData::Variable { name: name.clone() }, row: tokens[lo].row, col_start: tokens[lo].col_start, col_end: tokens[lo].col_end });
            },
            TokenData::Number { number } => {
                return Ok(GenExpr { data: GenExprData::Number { number: *number }, row: tokens[lo].row, col_start: tokens[lo].col_start, col_end: tokens[lo].col_end });
            },
            _ => {},
        }
    }
    if n >= 1 && token_is(&tokens[lo], SymbolType::Minus) {
        return gen_unary_exec(tokens, lo, hi, SymbolType::Minus);
    }
    if n == 1 {
        match &tokens[lo].data {
            TokenData::String { value } => {
                return Ok(GenExpr { data: GenExprData::String { value: value.clone() }, row: tokens[lo].row, col_start: tokens[lo].col_start, col_end: tokens[lo].col_end });
            },
            _ => {},
        }
        if token_is(&tokens[lo], SymbolType::True) {
            return Ok(GenExpr { data: GenExprData::Boolean { value: true }, row: tokens[lo].row, col_start: tokens[lo].col_start, col_end: tokens[lo].col_end });
        }
        if token_is(&tokens[lo], SymbolType::False) {
            return Ok(GenExpr { data: GenExprData::Boolean { value: false }, row: tokens[lo].row, col_start: tokens[lo].col_start, col_end: tokens[lo].col_end });
        }
    }
    if n >= 1 {
        return Err(no_expression_at(tokens, lo, hi - 1));
    }
    Err(Error::SimpleError { message: String::from_str("No expression found") })
}

spec fn gens_matches(r: Result<Vec<GenExpr>, Error>, s: Result<Seq<GenView>, ErrorView>) -> bool {
    match (r, s) {
        (Ok(g), Ok(v)) => gens_view(g@) == v,
        (Err(e), Err(v)) => error_matches(e, v),
        _ => false,
    }
}

/// Reads comma-separated expressions from `tokens[lo..hi]` up to the symbol `close`.
fn read_seq_exec(tokens: &Vec<Token>, lo: usize, hi: usize, close: SymbolType, other: SymbolType) -> (r: Result<Vec<GenExpr>, Error>)
    requires
        lo <= hi <= tokens@.len(),
    ensures
        gens_matches(r, read_seq(tv(tokens@, lo as int, hi as int), close, other)),
    decreases hi - lo, 3int,
{
    match read_one_exec(tokens, lo, hi, close, other) {
        Err(e) => Err(e),
        Ok(None) => {
            assert(gens_view(Seq::<GenExpr>::empty()) =~= Seq::<GenView>::empty());
            Ok(Vec::new())
        },
        Ok(Some((p, k))) => {
            proof { lemma_tv_sub(tokens@, lo as int, hi as int, k as int, hi - lo); }
            match read_seq_exec(tokens, lo + k, hi, close, other) {
                Ok(rest) => {
                    let ghost rv = rest@;
                    let mut v = Vec::new();
                    v.push(p);
                    let mut rest = rest;
                    v.append(&mut rest);
                    proof {
                        lemma_gens_view(v@);
                        lemma_gens_view(rv);
                        assert(gens_view(v@) =~= seq![gen_view(v@[0])] + gens_view(rv));
                    }
                    Ok(v)
                },
                Err(e) => Err(e),
            }
        },
    }
}

spec fn one_matches(r: Result<Option<(GenExpr, usize)>, Error>, s: Result<Option<(GenView, int)>, ErrorView>) -> bool {
    match (r, s) {
        (Ok(None), Ok(None)) => true,
        (Ok(Some((g, k))), Ok(Some((v, j)))) => gen_view(g) == v && k as int == j,
        (Err(e), Err(v)) => error_matches(e, v),
        _ => false,
    }
}

/// Reads the next item of a comma-separated sequence in `tokens[lo..hi]`.
fn read_one_exec(tokens: &Vec<Token>, lo: usize, hi: usize, close: SymbolType, other: SymbolType) -> (r: Result<Option<(GenExpr, usize)>, Error>)
    requires
        lo <= hi <= tokens@.len(),
    ensures
        one_matches(r, read_one(tv(tokens@, lo as int, hi as int), close, other)),
        r matches Ok(Some((_, k))) ==> 1 <= k <= hi - lo,
    decreases hi - lo, 2int,
{
    let ghost ts = tv(tokens@, lo as int, hi as int);
    let n = hi - lo;
    if n > 0 {
        assert(ts[0] == tokens@[lo as int]@);
    }
    if n > 0 && token_is(&tokens[lo], close) {
        return Ok(None);
    }
    if n <= 1 {
        return Err(Error::SimpleError { message: String::from_str("Could not find a valid function call") });
    }
    let mut depth: i128 = 1;
    if token_is(&tokens[lo], SymbolType::ParenthesisOpen) || token_is(&tokens[lo], SymbolType::SquareBracketOpen) {
        depth = 2;
    }
    let mut i: usize = 1;
    while i < n
        invariant
            lo <= hi <= tokens@.len(),
            n == hi - lo,
            ts == tv(tokens@, lo as int, hi as int),
            1 <= i <= n,
            -(i as int) <= depth <= i + 1,
            read_one(ts, close, other) == read_scan(ts, close, other, i as int, depth as int),
        decreases n - i,
    {
        let t = &tokens[lo + i];
        assert(ts[i as int] == tokens@[lo + i]@);
        proof { lemma_tv_sub(tokens@, lo as int, hi as int, 0, i as int); }
        if token_is(t, SymbolType::Comma) {
            if depth == 1 {
                match get_generic_expression(tokens, lo, lo + i) {
                    Ok(expr) => return Ok(Some((expr, i + 1))),
                    Err(_) => {},
                }
            }
        } else if token_is(t, SymbolType::ParenthesisOpen) || token_is(t, SymbolType::SquareBracketOpen) {
            depth = depth + 1;
        } else if token_is(t, other) {
            depth = depth - 1;
        } else if token_is(t, close) {
            depth = depth - 1;
            if depth == 0 {
                match get_generic_expression(tokens, lo, lo + i) {
                    Ok(expr) => return Ok(Some((expr, i))),
                    Err(e) => return Err(e),
                }
            }
        }
        i = i + 1;
    }
    Err(Error::SimpleError { message: String::from_str("Could not find a valid function call") })
}

/// The expression kind of a binary operator symbol.
pub open spec fn binary_kind(s: SymbolType) -> Option<BinaryKind> {
    match s {
        SymbolType::Plus => Some(BinaryKind::Add),
        SymbolType::Minus => Some(BinaryKind::Subtract),
        SymbolType::Star => Some(BinaryKind::Multiply),
        SymbolType::Slash => Some(BinaryKind::Divide),
        SymbolType::Hat => Some(BinaryKind::Power),
        SymbolType::Or => Some(BinaryKind::Or),
        SymbolType::And => Some(BinaryKind::And),
        SymbolType::EqualsEquals => Some(BinaryKind::Equals),
        SymbolType::NotEquals => Some(BinaryKind::NotEquals),
        SymbolType::GreaterThan => Some(BinaryKind::GreaterThan),
        SymbolType::GreaterThanOrEqual => Some(BinaryKind::GreaterThanOrEqual),
        SymbolType::LessThan => Some(BinaryKind::LessThan),
        SymbolType::LessThanOrEqual => Some(BinaryKind::LessThanOrEqual),
        _ => None,
    }
}

/// The expression a generic expression stands for: each operator symbol becomes its kind
/// of expression; a symbol that is no operator is an error at the expression's place.
pub open spec fn gen_to_rec(g: GenView) -> Result<RecExprView<()>, ErrorView>
    decreases g,
{
    let here = |d: RecExprDataView<()>| RecExprView { data: d, row: g.row, col_start: g.col_start, col_end: g.col_end, generic_data: () };
    match g.data {
        GenDataView::Variable(n) => Ok(here(RecExprDataView::Variable(n))),
        GenDataView::Number(n) => Ok(here(RecExprDataView::Number(n))),
        GenDataView::Str(v) => Ok(here(RecExprDataView::Str(v))),
        GenDataView::Boolean(b) => Ok(here(RecExprDataView::Boolean(b))),
        GenDataView::Unary(op, x) => if op == SymbolType::Minus || op == SymbolType::Not {
            match gen_to_rec(*x) {
                Ok(r) => Ok(here(if op == SymbolType::Minus { RecExprDataView::Minus(Box::new(r)) } else { RecExprDataView::Not(Box::new(r)) })),
                Err(e) => Err(e),
            }
        } else {
            Err(ErrorView::Located("Invalid unary operator: "@ + symbol_text(op), g.row, g.col_start, g.col_end))
        },
        GenDataView::Binary(l, op, r) => match binary_kind(op) {
            Some(k) => match (gen_to_rec(*l), gen_to_rec(*r)) {
                (Ok(a), Ok(b)) => Ok(here(RecExprDataView::Binary(k, Box::new(a), Box::new(b)))),
                (Err(e), _) => Err(e),
                (_, Err(e)) => Err(e),
            },
            None => Err(ErrorView::Located("Invalid binary operator: "@ + symbol_text(op), g.row, g.col_start, g.col_end)),
        },
        GenDataView::FunctionCall(name, args) => match gens_to_rec(args) {
            Ok(rs) => Ok(here(RecExprDataView::FunctionCall(name, rs))),
            Err(e) => Err(e),
        },
        GenDataView::List(els) => match gens_to_rec(els) {
            Ok(rs) => Ok(here(RecExprDataView::List(rs))),
            Err(e) => Err(e),
        },
        GenDataView::ListAccess(v, idx) => match gen_to_rec(*idx) {
            Ok(r) => Ok(here(RecExprDataView::ListAccess(v, Box::new(r)))),
            Err(e) => Err(e),
        },
    }
}

/// The expressions for a sequence of generic expressions; the first error wins.
pub open spec fn gens_to_rec(s: Seq<GenView>) -> Result<Seq<RecExprView<()>>, ErrorView>
    decreases s,
{
    if s.len() == 0 {
        Ok(seq![])
    } else {
        match gens_to_rec(s.drop_last()) {
            Err(e) => Err(e),
            Ok(rs) => match gen_to_rec(s.last()) {
                Ok(r) => Ok(rs.push(r)),
                Err(e) => Err(e),
            },
        }
    }
}

/// Whether a result of parsing an expression is the one the specification gives.
pub open spec fn rec_matches(r: Result<RecExpr<()>, Error>, s: Result<RecExprView<()>, ErrorView>) -> bool {
    match (r, s) {
        (Ok(e), Ok(v)) => rec_view(e) == v,
        (Err(e), Err(v)) => error_matches(e, v),
        _ => false,
    }
}

fn make_rec(data: RecExprData<()>, g: &GenExpr) -> (r: RecExpr<()>)
    ensures
        r.data == data,
        r.row == g.row,
        r.col_start == g.col_start,
        r.col_end == g.col_end,
{
    RecExpr { data, row: g.row, col_start: g.col_start, col_end: g.col_end, generic_data: () }
}

fn binary_rec(op: SymbolType, l: RecExpr<()>, r: RecExpr<()>) -> (res: Option<RecExprData<()>>)
    ensures
        res is None <==> binary_kind(op) is None,
        res matches Some(d) ==> rec_view(RecExpr { data: d, row: 0, col_start: 0, col_end: 0, generic_data: () }).data == RecExprDataView::Binary(binary_kind(op)->Some_0, Box::new(rec_view(l)), Box::new(rec_view(r))),
{
    let left = Box::new(l);
    let right = Box::new(r);
    match op {
        SymbolType::Plus => Some(RecExprData::Add { left, right }),
        SymbolType::Minus => Some(RecExprData::Subtract { left, right }),
        SymbolType::Star => Some(RecExprData::Multiply { left, right }),
        SymbolType::Slash => Some(RecExprData::Divide { left, right }),
        SymbolType::Hat => Some(RecExprData::Power { left, right }),
        SymbolType::Or => Some(RecExprData::Or { left, right }),
        SymbolType::And => Some(RecExprData::And { left, right }),
        SymbolType::EqualsEquals => Some(RecExprData::Equals { left, right }),
        SymbolType::NotEquals => Some(RecExprData::NotEquals { left, right }),
        SymbolType::GreaterThan => Some(RecExprData::GreaterThan { left, right }),
        SymbolType::GreaterThanOrEqual => Some(RecExprData::GreaterThanOrEqual { left, right }),
        SymbolType::LessThan => Some(RecExprData::LessThan { left, right }),
        SymbolType::LessThanOrEqual => Some(RecExprData::LessThanOrEqual { left, right }),
        _ => None,
    }
}

fn invalid_operator(what: &str, op: SymbolType, g: &GenExpr) -> (r: Error)
    ensures
        r.is_located(what@ + symbol_text(op), g.row as int, g.col_start as int, g.col_end as int),
{
    let m = concat(what, get_symbol_from_type(&op).as_str());
    Error::LocationError { message: m, row: g.row, col_start: g.col_start, col_end: g.col_end }
}

/// Turns a generic expression into an expression.
fn generic_expression_to_recursive_expression(gen_expr: &GenExpr) -> (r: Result<RecExpr<()>, Error>)
    ensures
        rec_matches(r, gen_to_rec(gen_view(*gen_expr))),
    decreases gen_expr, 1int,
{
    match &gen_expr.data {
        GenExprData::Variable { name } => Ok(make_rec(RecExprData::Variable { name: name.clone() }, gen_expr)),
        GenExprData::Number { number } => Ok(make_rec(RecExprData::Number { number: *number }, gen_expr)),
        GenExprData::String { value } => Ok(make_rec(RecExprData::String { value: value.clone() }, gen_expr)),
        GenExprData::Boolean { value } => Ok(make_rec(RecExprData::Boolean { value: *value }, gen_expr)),
        GenExprData::UnaryOp { operator, operand } => {
            if *operator == SymbolType::Minus {
                match generic_expression_to_recursive_expression(&**operand) {
                    Ok(e) => Ok(make_rec(RecExprData::Minus { right: Box::new(e) }, gen_expr)),
                    Err(e) => Err(e),
                }
            } else if *operator == SymbolType::Not {
                match generic_expression_to_recursive_expression(&**operand) {
                    Ok(e) => Ok(make_rec(RecExprData::Not { right: Box::new(e) }, gen_expr)),
                    Err(e) => Err(e),
                }
            } else {
                Err(invalid_operator("Invalid unary operator: ", *operator, gen_expr))
            }
        },
        GenExprData::BinaryOp { left_operand, operator, right_operand } => {
            match binary_rec(*operator, make_rec(RecExprData::Boolean { value: false }, gen_expr), make_rec(RecExprData::Boolean { value: false }, gen_expr)) {
                None => return Err(invalid_operator("Invalid binary operator: ", *operator, gen_expr)),
                Some(_) => {},
            }
            let l = generic_expression_to_recursive_expression(&**left_operand);
            let r = generic_expression_to_recursive_expression(&**right_operand);
            match (l, r) {
                (Ok(a), Ok(b)) => {
                    let d = binary_rec(*operator, a, b);
                    match d {
                        Some(d) => Ok(make_rec(d, gen_expr)),
                        None => Err(invalid_operator("Invalid binary operator: ", *operator, gen_expr)),
                    }
                },
                (Err(e), _) => Err(e),
                (_, Err(e)) => Err(e),
            }
        },
        GenExprData::FunctionCall { function_name, arguments } => {
            match convert_all(arguments) {
                Ok(args) => Ok(make_rec(RecExprData::FunctionCall { function_name: function_name.clone(), args }, gen_expr)),
                Err(e) => Err(e),
            }
        },
        GenExprData::List { elements } => {
            match convert_all(elements) {
                Ok(elements) => Ok(make_rec(RecExprData::List { elements }, gen_expr)),
                Err(e) => Err(e),
            }
        },
        GenExprData::ListAccess { variable, index } => {
            match generic_expression_to_recursive_expression(&**index) {
                Ok(e) => Ok(make_rec(RecExprData::ListAccess { variable: variable.clone(), index: Box::new(e) }, gen_expr)),
                Err(e) => Err(e),
            }
        },
    }
}

/// Turns each generic expression into an expression, stopping at the first error.
fn convert_all(gs: &Vec<GenExpr>) -> (r: Result<Vec<RecExpr<()>>, Error>)
    ensures
        match (r, gens_to_rec(gens_view(gs@))) {
            (Ok(v), Ok(s)) => recs_view(v@) == s,
            (Err(e), Err(ev)) => error_matches(e, ev),
            _ => false,
        },
    decreases gs, 0int,
{
    let mut out: Vec<RecExpr<()>> = Vec::new();
    let mut i: usize = 0;
    proof { lemma_gens_view(gs@); }
    assert(gens_view(gs@).subrange(0, 0) =~= Seq::<GenView>::empty());
    while i < gs.len()
        invariant
            i <= gs@.len(),
            gens_view(gs@).len() == gs@.len(),
            forall|j: int| 0 <= j < gs@.len() ==> #[trigger] gens_view(gs@)[j] == gen_view(gs@[j]),
            gens_to_rec(gens_view(gs@).subrange(0, i as int)) == Ok::<Seq<RecExprView<()>>, ErrorView>(recs_view(out@)),
        decreases gs@.len() - i,
    {
        proof { assert(decreases_to!(gs => gs@[i as int])); }
        let ghost before = out@;
        assert(gens_view(gs@).subrange(0, i + 1).drop_last() =~= gens_view(gs@).subrange(0, i as int));
        match generic_expression_to_recursive_expression(&gs[i]) {
            Ok(e) => {
                out.push(e);
                assert(out@.drop_last() =~= before);
            },
            Err(e) => {
                proof { lemma_gens_to_rec_error_stays(gens_view(gs@), i as int + 1); }
                return Err(e);
            },
        }
        i = i + 1;
    }
    assert(gens_view(gs@).subrange(0, gs@.len() as int) =~= gens_view(gs@));
    Ok(out)
}

proof fn lemma_gens_to_rec_error_stays(s: Seq<GenView>, k: int)
    requires
        0 <= k <= s.len(),
        gens_to_rec(s.subrange(0, k)) is Err,
    ensures
        gens_to_rec(s) == gens_to_rec(s.subrange(0, k)),
    decreases s.len() - k,
{
    if k == s.len() {
        assert(s.subrange(0, k) =~= s);
    } else {
        assert(s.subrange(0, k + 1).drop_last() =~= s.subrange(0, k));
        lemma_gens_to_rec_error_stays(s, k + 1);
    }
}

/// The expression spelled by a sequence of tokens.
pub open spec fn expr_of(ts: Seq<TokenView>) -> Result<RecExprView<()>, ErrorView> {
    match gen(ts) {
        Ok(g) => gen_to_rec(g),
        Err(e) => Err(e),
    }
}

/// Parses `tokens[lo..hi]` into an expression.
fn get_expression(tokens: &Vec<Token>, lo: usize, hi: usize) -> (r: Result<RecExpr<()>, Error>)
    requires
        lo <= hi <= tokens@.len(),
    ensures
        rec_matches(r, expr_of(tv(tokens@, lo as int, hi as int))),
{
    match get_generic_expression(tokens, lo, hi) {
        Ok(gen_expr) => generic_expression_to_recursive_expression(&gen_expr),
        Err(e) => Err(e),
    }
}

/// The parameter names of a function definition, read from the tokens after `(`.
pub open spec fn params_of(ts: Seq<TokenView>) -> Result<Seq<Seq<char>>, ErrorView>
    decreases ts.len(),
{
    if ts.len() >= 2 && ts[0].data is Variable && is_sym(ts[1], SymbolType::Comma) {
        match params_of(ts.subrange(2, ts.len() as int)) {
            Ok(ps) => Ok(seq![ts[0].data->Variable_0] + ps),
            Err(e) => Err(e),
        }
    } else if ts.len() == 2 && ts[0].data is Variable && is_sym(ts[1], SymbolType::ParenthesisClosed) {
        Ok(seq![ts[0].data->Variable_0])
    } else if ts.len() >= 1 && is_sym(ts[0], SymbolType::ParenthesisClosed) {
        if ts.len() >= 2 {
            Err(ErrorView::Located("Unexpected extra tokens on else statement"@, ts[1].row, ts[1].col_start, ts[ts.len() - 1].col_end))
        } else {
            Ok(seq![])
        }
    } else {
        Err(ErrorView::Simple("Invalid function parameter definition"@))
    }
}

/// Reads the parameter names of a function definition from `tokens[lo..hi]`.
fn parse_function_parameters(tokens: &Vec<Token>, lo: usize, hi: usize) -> (r: Result<Vec<String>, Error>)
    requires
        lo <= hi <= tokens@.len(),
    ensures
        match (r, params_of(tv(tokens@, lo as int, hi as int))) {
            (Ok(v), Ok(s)) => strings_view(v@) == s,
            (Err(e), Err(ev)) => error_matches(e, ev),
            _ => false,
        },
    decreases hi - lo,
{
    let ghost ts = tv(tokens@, lo as int, hi as int);
    let n = hi - lo;
    if n >= 1 {
        assert(ts[0] == tokens@[lo as int]@);
        assert(ts[n - 1] == tokens@[hi - 1]@);
    }
    if n >= 2 {
        assert(ts[1] == tokens@[lo + 1]@);
    }
    if n >= 2 && token_is_variable(&tokens[lo]) && token_is(&tokens[lo + 1], SymbolType::Comma) {
        proof { lemma_tv_sub(tokens@, lo as int, hi as int, 2, n as int); }
        match parse_function_parameters(tokens, lo + 2, hi) {
            Ok(mut other_parameters) => {
                let ghost rest = other_parameters@;
                other_parameters.insert(0, token_variable_name(&tokens[lo]));
                assert(strings_view(other_parameters@) =~= seq![ts[0].data->Variable_0] + strings_view(rest));
                return Ok(other_parameters);
            },
            Err(e) => return Err(e),
        }
    }
    if n == 2 && token_is_variable(&tokens[lo]) && token_is(&tokens[lo + 1], SymbolType::ParenthesisClosed) {
        let mut v = Vec::new();
        v.push(token_variable_name(&tokens[lo]));
        assert(strings_view(v@) =~= seq![ts[0].data->Variable_0]);
        return Ok(v);
    }
    if n >= 1 && token_is(&tokens[lo], SymbolType::ParenthesisClosed) {
        if n >= 2 {
            return Err(Error::LocationError {
                message: String::from_str("Unexpected extra tokens on else statement"),
                row: tokens[lo + 1].row,
                col_start: tokens[lo + 1].col_start,
                col_end: tokens[hi - 1].col_end,
            });
        }
        let v: Vec<String> = Vec::new();
        assert(strings_view(v@) =~= Seq::<Seq<char>>::empty());
        return Ok(v);
    }
    Err(Error::SimpleError { message: String::from_str("Invalid function parameter definition") })
}

/// A statement at a place, with data `()`.
pub open spec fn base_at(data: BaseExprDataView<()>, row: int, col_start: int, col_end: int) -> BaseExprView<()> {
    BaseExprView { data, row, col_start, col_end, generic_data: () }
}

/// The statement starting at token line `p` and the index of the first line after it;
/// block statements take the following lines indented deeper than line `p` as their body.
pub open spec fn base_expr_at(lines: Seq<(Seq<TokenView>, nat)>, p: int) -> (Result<BaseExprView<()>, ErrorView>, int)
    decreases lines.len() - p, 0int,
{
    if p < 0 || p >= lines.len() {
        (Err(ErrorView::Simple("No tokens found"@)), p)
    } else {
        let ts = lines[p].0;
        let ind = lines[p].1;
        let n = ts.len() as int;
        if n == 0 {
            (Err(ErrorView::Simple("No tokens found"@)), p + 1)
        } else {
            let row = ts[0].row;
            let cs = ts[0].col_start;
            let ce = ts[n - 1].col_end;
            let body = base_exprs_at(lines, p + 1, ind + 1);
            if n >= 2 && ts[0].data is Variable && is_sym(ts[1], SymbolType::Equals) {
                match expr_of(ts.subrange(2, n)) {
                    Ok(e) => (Ok(base_at(BaseExprDataView::VariableAssignment(ts[0].data->Variable_0, e), row, cs, ce)), p + 1),
                    Err(e) => (Err(e), p + 1),
                }
            } else if n >= 2 && ts[0].data is Variable && is_sym(ts[1], SymbolType::PlusEquals) {
                match expr_of(ts.subrange(2, n)) {
                    Ok(e) => (Ok(base_at(BaseExprDataView::PlusEquals(ts[0].data->Variable_0, e), row, cs, ce)), p + 1),
                    Err(e) => (Err(e), p + 1),
                }
            } else if is_sym(ts[0], SymbolType::If) {
                match expr_of(ts.subrange(1, n)) {
                    Err(e) => (Err(e), p + 1),
                    Ok(c) => match body.0 {
                        Ok(b) => (Ok(base_at(BaseExprDataView::If(c, b, None), row, cs, ce)), body.1),
                        Err(e) => (Err(e), body.1),
                    },
                }
            } else if n >= 2 && is_sym(ts[0], SymbolType::Else) && is_sym(ts[1], SymbolType::If) {
                match expr_of(ts.subrange(2, n)) {
                    Err(e) => (Err(e), p + 1),
                    Ok(c) => match body.0 {
                        Ok(b) => (Ok(base_at(BaseExprDataView::ElseIf(c, b, None), row, cs, ce)), body.1),
                        Err(e) => (Err(e), body.1),
                    },
                }
            } else if is_sym(ts[0], SymbolType::Else) {
                if n >= 2 {
                    (Err(ErrorView::Located("Unexpected extra tokens on else statement"@, ts[1].row, ts[1].col_start, ts[n - 1].col_end)), p + 1)
                } else {
                    match body.0 {
                        Ok(b) => (Ok(base_at(BaseExprDataView::Else(b), row, cs, ce)), body.1),
                        Err(e) => (Err(e), body.1),
                    }
                }
            } else if is_sym(ts[0], SymbolType::Break) {
                if n >= 2 {
                    (Err(ErrorView::Located("Unexpected extra tokens on else statement"@, ts[1].row, ts[1].col_start, ts[n - 1].col_end)), p + 1)
                } else {
                    (Ok(base_at(BaseExprDataView::Break, row, cs, ce)), p + 1)
                }
            } else if n >= 3 && is_sym(ts[0], SymbolType::For) && ts[1].data is Variable && is_sym(ts[2], SymbolType::In) {
                match expr_of(ts.subrange(3, n)) {
                    Err(e) => (Err(e), p + 1),
                    Ok(u) => match body.0 {
                        Ok(b) => (Ok(base_at(BaseExprDataView::ForLoop(ts[1].data->Variable_0, u, b), row, cs, ce)), body.1),
                        Err(e) => (Err(e), body.1),
                    },
                }
            } else if n >= 3 && is_sym(ts[0], SymbolType::Fun) && ts[1].data is Variable && is_sym(ts[2], SymbolType::ParenthesisOpen) {
                match params_of(ts.subrange(3, n)) {
                    Err(_) => (Err(ErrorView::Located("Invalid function parameters"@, ts[0].row, ts[0].col_start, ts[n - 1].col_end)), p + 1),
                    Ok(ps) => match body.0 {
                        Ok(b) => (Ok(base_at(BaseExprDataView::FunctionDefinition(ts[1].data->Variable_0, ps, b), row, cs, ce)), body.1),
                        Err(e) => (Err(e), body.1),
                    },
                }
            } else if is_sym(ts[0], SymbolType::Return) {
                if n == 1 {
                    (Ok(base_at(BaseExprDataView::Return(None), row, cs, ce)), p + 1)
                } else {
                    match expr_of(ts.subrange(1, n)) {
                        Ok(e) => (Ok(base_at(BaseExprDataView::Return(Some(e)), row, cs, ce)), p + 1),
                        Err(e) => (Err(e), p + 1),
                    }
                }
            } else {
                match expr_of(ts) {
                    Ok(e) => (Ok(base_at(BaseExprDataView::Simple(e), row, cs, ce)), p + 1),
                    Err(e) => (Err(e), p + 1),
                }
            }
        }
    }
}

/// The statements from token line `p` on, as long as lines are indented at least `ind`
/// levels, and the index of the first line not read.
pub open spec fn base_exprs_at(lines: Seq<(Seq<TokenView>, nat)>, p: int, ind: nat) -> (Result<Seq<BaseExprView<()>>, ErrorView>, int)
    decreases lines.len() - p, 1int,
{
    if p < 0 || p >= lines.len() || lines[p].1 < ind {
        (Ok(seq![]), p)
    } else {
        let first = base_expr_at(lines, p);
        match first.0 {
            Err(e) => (Err(e), first.1),
            Ok(b) => if p < first.1 <= lines.len() {
                let rest = base_exprs_at(lines, first.1, ind);
                match rest.0 {
                    Ok(bs) => (Ok(seq![b] + bs), rest.1),
                    Err(e) => (Err(e), rest.1),
                }
            } else {
                (Err(ErrorView::Simple("No tokens found"@)), first.1)
            },
        }
    }
}

/// Whether a parsed statement is the one the specification gives.
pub open spec fn base_matches(r: Result<BaseExpr<()>, Error>, s: Result<BaseExprView<()>, ErrorView>) -> bool {
    match (r, s) {
        (Ok(b), Ok(v)) => base_view(b) == v,
        (Err(e), Err(v)) => error_matches(e, v),
        _ => false,
    }
}

/// Whether parsed statements are the ones the specification gives.
pub open spec fn bases_matches(r: Result<Vec<BaseExpr<()>>, Error>, s: Result<Seq<BaseExprView<()>>, ErrorView>) -> bool {
    match (r, s) {
        (Ok(b), Ok(v)) => bases_view(b@) == v,
        (Err(e), Err(v)) => error_matches(e, v),
        _ => false,
    }
}

spec fn prepend(acc: Seq<BaseExprView<()>>, x: (Result<Seq<BaseExprView<()>>, ErrorView>, int)) -> (Result<Seq<BaseExprView<()>>, ErrorView>, int) {
    match x.0 {
        Ok(bs) => (Ok(acc + bs), x.1),
        Err(e) => (Err(e), x.1),
    }
}

proof fn lemma_line_tokens(lines: Seq<TokenLine>, p: int)
    requires
        0 <= p < lines.len(),
    ensures
        token_lines_view(lines)[p].0 == tv(lines[p].tokens@, 0, lines[p].tokens@.len() as int),
        token_lines_view(lines)[p].1 == lines[p].indentation as nat,
        token_lines_view(lines).len() == lines.len(),
{
    assert(tv(lines[p].tokens@, 0, lines[p].tokens@.len() as int) =~= tokens_view(lines[p].tokens@));
}

fn extra_tokens_error(tokens: &Vec<Token>) -> (r: Error)
    requires
        tokens@.len() >= 2,
    ensures
        r.is_located("Unexpected extra tokens on else statement"@, tokens@[1].row as int, tokens@[1].col_start as int, tokens@[tokens@.len() - 1].col_end as int),
{
    Error::LocationError {
        message: String::from_str("Unexpected extra tokens on else statement"),
        row: tokens[1].row,
        col_start: tokens[1].col_start,
        col_end: tokens[tokens.len() - 1].col_end,
    }
}

/// Parses the statement starting at token line `p`; returns it and the index of the
/// first line after it.
fn get_base_expression(lines: &Vec<TokenLine>, p: usize) -> (r: (Result<BaseExpr<()>, Error>, usize))
    requires
        p < lines@.len(),
    ensures
        base_matches(r.0, base_expr_at(token_lines_view(lines@), p as int).0),
        r.1 == base_expr_at(token_lines_view(lines@), p as int).1,
        p < r.1 <= lines@.len(),
    decreases lines@.len() - p, 0int,
{
    let ghost lv = token_lines_view(lines@);
    proof { lemma_line_tokens(lines@, p as int); }
    let line_count = lines.len();
    assert(p + 1 <= line_count);
    let tokens = &lines[p].tokens;
    let ghost ts = lv[p as int].0;
    let n = tokens.len();
    if n == 0 {
        return (Err(Error::SimpleError { message: String::from_str("No tokens found") }), p + 1);
    }
    assert(ts[0] == tokens@[0]@);
    assert(ts[n - 1] == tokens@[n - 1]@);
    if n >= 2 {
        assert(ts[1] == tokens@[1]@);
    }
    if n >= 3 {
        assert(ts[2] == tokens@[2]@);
    }
    let row = tokens[0].row;
    let col_start = tokens[0].col_start;
    let col_end = tokens[n - 1].col_end;
    let ind: u128 = lines[p].indentation as u128 + 1;
    let data: BaseExprData<()>;
    let mut next = p + 1;
    if n >= 2 && token_is_variable(&tokens[0]) && token_is(&tokens[1], SymbolType::Equals) {
        proof { lemma_tv_sub(tokens@, 0, n as int, 2, n as int); }
        match get_expression(tokens, 2, n) {
            Ok(expr) => {
                data = BaseExprData::VariableAssignment { var_name: token_variable_name(&tokens[0]), expr };
            },
            Err(e) => return (Err(e), p + 1),
        }
    } else if n >= 2 && token_is_variable(&tokens[0]) && token_is(&tokens[1], SymbolType::PlusEquals) {
        proof { lemma_tv_sub(tokens@, 0, n as int, 2, n as int); }
        match get_expression(tokens, 2, n) {
            Ok(expr) => {
                data = BaseExprData::PlusEqualsStatement { var_name: token_variable_name(&tokens[0]), expr };
            },
            Err(e) => return (Err(e), p + 1),
        }
    } else if token_is(&tokens[0], SymbolType::If) {
        proof { lemma_tv_sub(tokens@, 0, n as int, 1, n as int); }
        let condition = match get_expression(tokens, 1, n) {
            Ok(c) => c,
            Err(e) => return (Err(e), p + 1),
        };
        let (body, q) = get_base_expressions_with_indentation(lines, p + 1, ind);
        next = q;
        match body {
            Ok(body) => {
                data = BaseExprData::IfStatement { condition, body, else_statement: None };
            },
            Err(e) => return (Err(e), q),
        }
    } else if n >= 2 && token_is(&tokens[0], SymbolType::Else) && token_is(&tokens[1], SymbolType::If) {
        proof { lemma_tv_sub(tokens@, 0, n as int, 2, n as int); }
        let condition = match get_expression(tokens, 2, n) {
            Ok(c) => c,
            Err(e) => return (Err(e), p + 1),
        };
        let (body, q) = get_base_expressions_with_indentation(lines, p + 1, ind);
        next = q;
        match body {
            Ok(body) => {
                data = BaseExprData::ElseIfStatement { condition, body, else_statement: None };
            },
            Err(e) => return (Err(e), q),
        }
    } else if token_is(&tokens[0], SymbolType::Else) {
        if n >= 2 {
            return (Err(extra_tokens_error(tokens)), p + 1);
        }
        let (body, q) = get_base_expressions_with_indentation(lines, p + 1, ind);
        next = q;
        match body {
            Ok(body) => {
                data = BaseExprData::ElseStatement { body };
            },
            Err(e) => return (Err(e), q),
        }
    } else if token_is(&tokens[0], SymbolType::Break) {
        if n >= 2 {
            return (Err(extra_tokens_error(tokens)), p + 1);
        }
        data = BaseExprData::Break;
    } else if n >= 3 && token_is(&tokens[0], SymbolType::For) && token_is_variable(&tokens[1]) && token_is(&tokens[2], SymbolType::In) {
        proof { lemma_tv_sub(tokens@, 0, n as int, 3, n as int); }
        let until = match get_expression(tokens, 3, n) {
            Ok(u) => u,
            Err(e) => return (Err(e), p + 1),
        };
        let (body, q) = get_base_expressions_with_indentation(lines, p + 1, ind);
        next = q;
        match body {
            Ok(body) => {
                data = BaseExprData::ForLoop { var_name: token_variable_name(&tokens[1]), until, body };
            },
            Err(e) => return (Err(e), q),
        }
    } else if n >= 3 && token_is(&tokens[0], SymbolType::Fun) && token_is_variable(&tokens[1]) && token_is(&tokens[2], SymbolType::ParenthesisOpen) {
        proof { lemma_tv_sub(tokens@, 0, n as int, 3, n as int); }
        let args = match parse_function_parameters(tokens, 3, n) {
            Ok(a) => a,
            Err(_) => {
                return (Err(Error::LocationError {
                    message: String::from_str("Invalid function parameters"),
                    row: tokens[0].row,
                    col_start: tokens[0].col_start,
                    col_end: tokens[n - 1].col_end,
                }), p + 1);
            },
        };
        let (body, q) = get_base_expressions_with_indentation(lines, p + 1, ind);
        next = q;
        match body {
            Ok(body) => {
                data = BaseExprData::FunctionDefinition { fun_name: token_variable_name(&tokens[1]), args, body };
            },
            Err(e) => return (Err(e), q),
        }
    } else if token_is(&tokens[0], SymbolType::Return) {
        if n == 1 {
            data = BaseExprData::Return { return_value: None };
        } else {
            proof { lemma_tv_sub(tokens@, 0, n as int, 1, n as int); }
            match get_expression(tokens, 1, n) {
                Ok(e) => {
                    data = BaseExprData::Return { return_value: Some(e) };
                },
                Err(e) => return (Err(e), p + 1),
            }
        }
    } else {
        proof { lemma_tv_sub(tokens@, 0, n as int, 0, n as int); }
        match get_expression(tokens, 0, n) {
            Ok(e) => {
                data = BaseExprData::Simple { expr: e };
            },
            Err(e) => return (Err(e), p + 1),
        }
    }
    (Ok(BaseExpr { data, row, col_start, col_end, generic_data: () }), next)
}

/// Parses the statements from token line `p` on while lines are indented at least `ind`
/// levels; returns them and the index of the first line not read.
fn get_base_expressions_with_indentation(lines: &Vec<TokenLine>, p: usize, ind: u128) -> (r: (Result<Vec<BaseExpr<()>>, Error>, usize))
    requires
        p <= lines@.len(),
    ensures
        bases_matches(r.0, base_exprs_at(token_lines_view(lines@), p as int, ind as nat).0),
        r.1 == base_exprs_at(token_lines_view(lines@), p as int, ind as nat).1,
        p <= r.1 <= lines@.len(),
    decreases lines@.len() - p, 1int,
{
    let ghost lv = token_lines_view(lines@);
    let mut expressions: Vec<BaseExpr<()>> = Vec::new();
    let mut q = p;
    assert(bases_view(expressions@) =~= Seq::<BaseExprView<()>>::empty());
    assert(prepend(Seq::<BaseExprView<()>>::empty(), base_exprs_at(lv, p as int, ind as nat)) == base_exprs_at(lv, p as int, ind as nat)) by {
        let x = base_exprs_at(lv, p as int, ind as nat);
        if let Ok(bs) = x.0 {
            assert(Seq::<BaseExprView<()>>::empty() + bs =~= bs);
        }
    }
    while q < lines.len() && (lines[q].indentation as u128) >= ind
        invariant
            lv == token_lines_view(lines@),
            lv.len() == lines@.len(),
            p <= q <= lines@.len(),
            base_exprs_at(lv, p as int, ind as nat) == prepend(bases_view(expressions@), base_exprs_at(lv, q as int, ind as nat)),
        decreases lines@.len() - q,
    {
        proof { lemma_line_tokens(lines@, q as int); }
        let (res, q2) = get_base_expression(lines, q);
        match res {
            Ok(b) => {
                let ghost before = expressions@;
                expressions.push(b);
                proof {
                    let rest = base_exprs_at(lv, q2 as int, ind as nat);
                    assert(bases_view(expressions@) == bases_view(before).push(base_view(b))) by {
                        assert(expressions@.drop_last() =~= before);
                    }
                    if let Ok(bs) = rest.0 {
                        assert(bases_view(before) + (seq![base_view(b)] + bs) =~= bases_view(expressions@) + bs);
                    }
                }
                q = q2;
            },
            Err(e) => return (Err(e), q2),
        }
    }
    (Ok(expressions), q)
}

/// The statement with `else_branch` attached at the end of its chain of `else if`
/// branches; an error at `else_branch`'s place when the chain does not end in an `if`
/// or `else if` without an `else` branch.
pub open spec fn attach_else(stmt: BaseExprView<()>, else_branch: BaseExprView<()>) -> Result<BaseExprView<()>, ErrorView>
    decreases stmt,
{
    match stmt.data {
        BaseExprDataView::If(c, b, els) => match els {
            Some(inner) => match attach_else(*inner, else_branch) {
                Ok(n) => Ok(BaseExprView { data: BaseExprDataView::If(c, b, Some(Box::new(n))), ..stmt }),
                Err(e) => Err(e),
            },
            None => Ok(BaseExprView { data: BaseExprDataView::If(c, b, Some(Box::new(else_branch))), ..stmt }),
        },
        BaseExprDataView::ElseIf(c, b, els) => match els {
            Some(inner) => match attach_else(*inner, else_branch) {
                Ok(n) => Ok(BaseExprView { data: BaseExprDataView::ElseIf(c, b, Some(Box::new(n))), ..stmt }),
                Err(e) => Err(e),
            },
            None => Ok(BaseExprView { data: BaseExprDataView::ElseIf(c, b, Some(Box::new(else_branch))), ..stmt }),
        },
        _ => Err(ErrorView::Located("Could not find if statement to add else statement to"@, else_branch.row, else_branch.col_start, else_branch.col_end)),
    }
}

/// The message for an `else if` or `else` statement that follows no `if` statement.
pub open spec fn else_message(b: BaseExprView<()>) -> Seq<char> {
    if b.data is ElseIf {
        "Could not find if statement to add else-if statement to"@
    } else {
        "Could not find if statement to add else statement to"@
    }
}

/// Attaches an `else if` or `else` statement to the `if` statement that ends `acc`; an
/// error at the statement's place when `acc` does not end in an `if` statement.
pub open spec fn attach_to_last(acc: Seq<BaseExprView<()>>, else_branch: BaseExprView<()>) -> Result<Seq<BaseExprView<()>>, ErrorView> {
    if acc.len() > 0 && acc.last().data is If {
        match attach_else(acc.last(), else_branch) {
            Ok(n) => Ok(acc.drop_last().push(n)),
            Err(e) => Err(e),
        }
    } else {
        Err(ErrorView::Located(else_message(else_branch), else_branch.row, else_branch.col_start, else_branch.col_end))
    }
}

/// The statements with every `else if` and `else` statement moved into the `if`
/// statement before it, at every depth; the first misplaced one is an error.
pub open spec fn merge_ifs(s: Seq<BaseExprView<()>>) -> Result<Seq<BaseExprView<()>>, ErrorView>
    decreases s,
{
    if s.len() == 0 {
        Ok(seq![])
    } else {
        match merge_ifs(s.drop_last()) {
            Err(e) => Err(e),
            Ok(acc) => {
                let b = s.last();
                match b.data {
                    BaseExprDataView::If(c, body, els) => match merge_ifs(body) {
                        Ok(mb) => Ok(acc.push(BaseExprView { data: BaseExprDataView::If(c, mb, els), ..b })),
                        Err(e) => Err(e),
                    },
                    BaseExprDataView::ElseIf(c, body, _) => match merge_ifs(body) {
                        Ok(mb) => attach_to_last(acc, BaseExprView { data: BaseExprDataView::ElseIf(c, mb, None), ..b }),
                        Err(e) => Err(e),
                    },
                    BaseExprDataView::Else(body) => match merge_ifs(body) {
                        Ok(mb) => attach_to_last(acc, BaseExprView { data: BaseExprDataView::Else(mb), ..b }),
                        Err(e) => Err(e),
                    },
                    BaseExprDataView::ForLoop(v, u, body) => match merge_ifs(body) {
                        Ok(mb) => Ok(acc.push(BaseExprView { data: BaseExprDataView::ForLoop(v, u, mb), ..b })),
                        Err(e) => Err(e),
                    },
                    BaseExprDataView::FunctionDefinition(f, a, body) => match merge_ifs(body) {
                        Ok(mb) => Ok(acc.push(BaseExprView { data: BaseExprDataView::FunctionDefinition(f, a, mb), ..b })),
                        Err(e) => Err(e),
                    },
                    _ => Ok(acc.push(b)),
                }
            },
        }
    }
}

fn else_location_error(message: &str, b: &BaseExpr<()>) -> (r: Error)
    ensures
        r.is_located(message@, b.row as int, b.col_start as int, b.col_end as int),
{
    Error::LocationError { message: String::from_str(message), row: b.row, col_start: b.col_start, col_end: b.col_end }
}

/// Attaches `else_statement_to_add` at the end of the chain of `else if` branches of
/// `if_statement`.
fn add_to_if_statement(if_statement: BaseExpr<()>, else_statement_to_add: BaseExpr<()>) -> (r: Result<BaseExpr<()>, Error>)
    ensures
        base_matches(r, attach_else(base_view(if_statement), base_view(else_statement_to_add))),
    decreases if_statement,
{
    let BaseExpr { data, row, col_start, col_end, generic_data } = if_statement;
    match data {
        BaseExprData::IfStatement { condition, body, else_statement } => match else_statement {
            Some(inner) => match add_to_if_statement(*inner, else_statement_to_add) {
                Ok(n) => Ok(BaseExpr {
                    data: BaseExprData::IfStatement { condition, body, else_statement: Some(Box::new(n)) },
                    row, col_start, col_end, generic_data,
                }),
                Err(e) => Err(e),
            },
            None => Ok(BaseExpr {
                data: BaseExprData::IfStatement { condition, body, else_statement: Some(Box::new(else_statement_to_add)) },
                row, col_start, col_end, generic_data,
            }),
        },
        BaseExprData::ElseIfStatement { condition, body, else_statement } => match else_statement {
            Some(inner) => match add_to_if_statement(*inner, else_statement_to_add) {
                Ok(n) => Ok(BaseExpr {
                    data: BaseExprData::ElseIfStatement { condition, body, else_statement: Some(Box::new(n)) },
                    row, col_start, col_end, generic_data,
                }),
                Err(e) => Err(e),
            },
            None => Ok(BaseExpr {
                data: BaseExprData::ElseIfStatement { condition, body, else_statement: Some(Box::new(else_statement_to_add)) },
                row, col_start, col_end, generic_data,
            }),
        },
        _ => Err(else_location_error("Could not find if statement to add else statement to", &else_statement_to_add)),
    }
}

fn is_if_statement(b: &BaseExpr<()>) -> (r: bool)
    ensures
        r == (base_view(*b).data is If),
{
    match b.data {
        BaseExprData::IfStatement { .. } => true,
        _ => false,
    }
}

/// Attaches `else_branch` to the `if` statement that ends `merged`.
fn attach_to_last_exec(merged: &mut Vec<BaseExpr<()>>, else_branch: BaseExpr<()>, message: &str) -> (r: Result<(), Error>)
    requires
        message@ == else_message(base_view(else_branch)),
    ensures
        match attach_to_last(bases_view(old(merged)@), base_view(else_branch)) {
            Ok(v) => r is Ok && bases_view(final(merged)@) == v,
            Err(v) => r matches Err(e) && error_matches(e, v),
        },
{
    let ghost m0 = merged@;
    proof {
        if m0.len() > 0 {
            lemma_bases_view(m0);
            assert(bases_view(m0).drop_last() =~= bases_view(m0.drop_last())) by {
                lemma_bases_view(m0.drop_last());
            }
        }
    }
    if merged.len() > 0 && is_if_statement(&merged[merged.len() - 1]) {
        let last = merged.pop().unwrap();
        assert(merged@ == m0.drop_last());
        match add_to_if_statement(last, else_branch) {
            Ok(n) => {
                merged.push(n);
                assert(merged@.drop_last() =~= m0.drop_last());
                Ok(())
            },
            Err(e) => Err(e),
        }
    } else {
        proof { lemma_bases_view(m0); }
        Err(else_location_error(message, &else_branch))
    }
}

/// Once merging a prefix of the statements fails, merging any longer prefix fails with
/// the same error.
proof fn lemma_merge_error_stays(s: Seq<BaseExprView<()>>, k: int)
    requires
        0 <= k <= s.len(),
        merge_ifs(s.subrange(0, k)) is Err,
    ensures
        merge_ifs(s) == merge_ifs(s.subrange(0, k)),
    decreases s.len() - k,
{
    if k < s.len() {
        assert(s.drop_last().subrange(0, k) =~= s.subrange(0, k));
        lemma_merge_error_stays(s.drop_last(), k);
    } else {
        assert(s.subrange(0, k) =~= s);
    }
}

spec fn else_view(e: Option<Box<BaseExpr<()>>>) -> Option<Box<BaseExprView<()>>> {
    match e {
        Some(e) => Some(Box::new(base_view(*e))),
        None => None,
    }
}

proof fn lemma_bases_view_prefix<T>(s: Seq<BaseExpr<T>>, k: int)
    requires
        0 <= k <= s.len(),
    ensures
        bases_view(s.subrange(0, k)) == bases_view(s).subrange(0, k),
{
    lemma_bases_view(s);
    lemma_bases_view(s.subrange(0, k));
    assert(bases_view(s.subrange(0, k)) =~= bases_view(s).subrange(0, k));
}

proof fn lemma_merge_prefix_error(s: Seq<BaseExpr<()>>, k: int)
    requires
        0 <= k <= s.len(),
        merge_ifs(bases_view(s.subrange(0, k))) is Err,
    ensures
        merge_ifs(bases_view(s)) == merge_ifs(bases_view(s.subrange(0, k))),
{
    lemma_bases_view(s);
    lemma_bases_view_prefix(s, k);
    lemma_merge_error_stays(bases_view(s), k);
}

/// Moves every `else if` and `else` statement into the `if` statement before it, at
/// every depth.
fn merge_if_statements(base_expressions: Vec<BaseExpr<()>>) -> (r: Result<Vec<BaseExpr<()>>, Error>)
    ensures
        bases_matches(r, merge_ifs(bases_view(base_expressions@))),
    decreases base_expressions@,
{
    let ghost s = base_expressions@;
    let mut rev = reversed(base_expressions);
    let mut merged: Vec<BaseExpr<()>> = Vec::new();
    assert(s.subrange(0, 0) =~= Seq::<BaseExpr<()>>::empty());
    assert(bases_view(merged@) =~= Seq::<BaseExprView<()>>::empty());
    while rev.len() > 0
        invariant
            s == base_expressions@,
            rev@.len() <= s.len(),
            forall|i: int| 0 <= i < rev@.len() ==> #[trigger] rev@[i] == s[s.len() - 1 - i],
            merge_ifs(bases_view(s.subrange(0, s.len() - rev@.len()))) == Ok::<Seq<BaseExprView<()>>, ErrorView>(bases_view(merged@)),
        decreases rev@.len(),
    {
        let ghost k = s.len() - rev@.len();
        let ghost acc = bases_view(merged@);
        let b = rev.pop().unwrap();
        assert(b == s[k]);
        assert(s.subrange(0, k + 1).drop_last() =~= s.subrange(0, k));
        assert(s.subrange(0, k + 1).last() == s[k]);
        let ghost bv = base_view(b);
        assert(bases_view(s.subrange(0, k + 1)) == bases_view(s.subrange(0, k)).push(bv));
        assert(bases_view(s.subrange(0, k)).push(bv).drop_last() =~= bases_view(s.subrange(0, k)));
        let ghost goal = merge_ifs(bases_view(s.subrange(0, k + 1)));
        let BaseExpr { data, row, col_start, col_end, generic_data } = b;
        match data {
            BaseExprData::IfStatement { condition, body, else_statement } => {
                assert(decreases_to!(s => body@)) by {
                    assert(decreases_to!(s => s[k]));
                }
                let mb = match merge_if_statements(body) {
                    Ok(x) => x,
                    Err(e) => {
                        proof { lemma_merge_prefix_error(s, k + 1); }
                        return Err(e);
                    },
                };
                let ghost els = else_view(else_statement);
                assert(bv.data == BaseExprDataView::If(rec_view(condition), bases_view(body@), els));
                let nb = BaseExpr { data: BaseExprData::IfStatement { condition, body: mb, else_statement }, row, col_start, col_end, generic_data };
                assert(base_view(nb) == BaseExprView { data: BaseExprDataView::If(rec_view(condition), bases_view(mb@), els), ..bv });
                let ghost m0 = merged@;
                merged.push(nb);
                assert(merged@.drop_last() =~= m0);
                assert(bases_view(merged@) == bases_view(m0).push(base_view(nb)));
                assert(goal == Ok::<Seq<BaseExprView<()>>, ErrorView>(bases_view(merged@)));
            },
            BaseExprData::ElseIfStatement { condition, body, else_statement: _ } => {
                assert(decreases_to!(s => body@)) by {
                    assert(decreases_to!(s => s[k]));
                }
                let mb = match merge_if_statements(body) {
                    Ok(x) => x,
                    Err(e) => {
                        proof { lemma_merge_prefix_error(s, k + 1); }
                        return Err(e);
                    },
                };
                let nb = BaseExpr { data: BaseExprData::ElseIfStatement { condition, body: mb, else_statement: None }, row, col_start, col_end, generic_data };
                match attach_to_last_exec(&mut merged, nb, "Could not find if statement to add else-if statement to") {
                    Ok(()) => {
                        assert(goal == Ok::<Seq<BaseExprView<()>>, ErrorView>(bases_view(merged@)));
                    },
                    Err(e) => {
                        proof { lemma_merge_prefix_error(s, k + 1); }
                        return Err(e);
                    },
                }
            },
            BaseExprData::ElseStatement { body } => {
                assert(decreases_to!(s => body@)) by {
                    assert(decreases_to!(s => s[k]));
                }
                let mb = match merge_if_statements(body) {
                    Ok(x) => x,
                    Err(e) => {
                        proof { lemma_merge_prefix_error(s, k + 1); }
                        return Err(e);
                    },
                };
                let nb = BaseExpr { data: BaseExprData::ElseStatement { body: mb }, row, col_start, col_end, generic_data };
                match attach_to_last_exec(&mut merged, nb, "Could not find if statement to add else statement to") {
                    Ok(()) => {
                        assert(goal == Ok::<Seq<BaseExprView<()>>, ErrorView>(bases_view(merged@)));
                    },
                    Err(e) => {
                        proof { lemma_merge_prefix_error(s, k + 1); }
                        return Err(e);
                    },
                }
            },
            BaseExprData::ForLoop { var_name, until, body } => {
                assert(decreases_to!(s => body@)) by {
                    assert(decreases_to!(s => s[k]));
                }
                let mb = match merge_if_statements(body) {
                    Ok(x) => x,
                    Err(e) => {
                        proof { lemma_merge_prefix_error(s, k + 1); }
                        return Err(e);
                    },
                };
                assert(bv.data == BaseExprDataView::ForLoop(var_name@, rec_view(until), bases_view(body@)));
                let nb = BaseExpr { data: BaseExprData::ForLoop { var_name, until, body: mb }, row, col_start, col_end, generic_data };
                let ghost m0 = merged@;
                merged.push(nb);
                assert(merged@.drop_last() =~= m0);
                assert(bases_view(merged@) == bases_view(m0).push(base_view(nb)));
                assert(goal == Ok::<Seq<BaseExprView<()>>, ErrorView>(bases_view(merged@)));
            },
            BaseExprData::FunctionDefinition { fun_name, args, body } => {
                assert(decreases_to!(s => body@)) by {
                    assert(decreases_to!(s => s[k]));
                }
                let mb = match merge_if_statements(body) {
                    Ok(x) => x,
                    Err(e) => {
                        proof { lemma_merge_prefix_error(s, k + 1); }
                        return Err(e);
                    },
                };
                assert(bv.data == BaseExprDataView::FunctionDefinition(fun_name@, strings_view(args@), bases_view(body@)));
                let nb = BaseExpr { data: BaseExprData::FunctionDefinition { fun_name, args, body: mb }, row, col_start, col_end, generic_data };
                let ghost m0 = merged@;
                merged.push(nb);
                assert(merged@.drop_last() =~= m0);
                assert(bases_view(merged@) == bases_view(m0).push(base_view(nb)));
                assert(goal == Ok::<Seq<BaseExprView<()>>, ErrorView>(bases_view(merged@)));
            },
            other => {
                let nb = BaseExpr { data: other, row, col_start, col_end, generic_data };
                assert(base_view(nb) == bv);
                let ghost m0 = merged@;
                merged.push(nb);
                assert(merged@.drop_last() =~= m0);
                assert(bases_view(merged@) == bases_view(m0).push(base_view(nb)));
                assert(goal == Ok::<Seq<BaseExprView<()>>, ErrorView>(bases_view(merged@)));
            },
        }
        assert(s.len() - rev@.len() == k + 1);
    }
    assert(s.subrange(0, s.len() as int) =~= s);
    Ok(merged)
}

/// The statements of all token lines, read at indentation level zero.
fn get_base_expressions(token_lines: &Vec<TokenLine>) -> (r: Result<Vec<BaseExpr<()>>, Error>)
    ensures
        bases_matches(r, base_exprs_at(token_lines_view(token_lines@), 0, 0).0),
{
    get_base_expressions_with_indentation(token_lines, 0, 0).0
}

/// What parsing source lines gives: the lines are tokenized, the token lines read into
/// statements by indentation, and `else if` and `else` statements merged into the `if`
/// statements before them.
pub open spec fn parse_spec(lines: Seq<Seq<char>>) -> Result<Seq<BaseExprView<()>>, ErrorView> {
    match tokenize_lines(lines) {
        Err((m, row, a, b)) => Err(ErrorView::Located(m, row, a, b)),
        Ok(tls) => match base_exprs_at(tls, 0, 0).0 {
            Err(e) => Err(e),
            Ok(bs) => merge_ifs(bs),
        },
    }
}

/// Parses the lines of a program into its statements.
pub fn parse_strings(lines: Vec<&str>) -> (r: Result<Vec<BaseExpr<()>>, Error>)
    requires
        forall|i: int| 0 <= i < lines@.len() ==> (#[trigger] lines@[i])@.len() <= usize::MAX / 64,
    ensures
        bases_matches(r, parse_spec(lines_view(lines@))),
{
    let ghost lv = lines_view(lines@);
    let token_lines = match tokenize(lines) {
        Ok(token_lines) => token_lines,
        Err(e) => return Err(e),
    };
    let base_expressions = match get_base_expressions(&token_lines) {
        Ok(b) => b,
        Err(e) => return Err(e),
    };
    merge_if_statements(base_expressions)
}

} // verus!
