//! Rewriting statements into simpler ones: `a += e` becomes `a = a + e`.
use vstd::prelude::*;
use crate::tokenizer::utf8_len;
use crate::tokenizer::char_utf8_len;
use crate::text::string_to_chars;
use crate::parser::BaseExpr;
use crate::parser::BaseExprData;
use crate::parser::BaseExprView;
use crate::parser::BaseExprDataView;
use crate::parser::RecExpr;
use crate::parser::RecExprData;
use crate::parser::RecExprView;
use crate::parser::RecExprDataView;
use crate::parser::BinaryKind;
use crate::parser::base_view;
use crate::parser::bases_view;
use crate::parser::rec_view;
use crate::parser::lemma_bases_view;
use crate::vecs::reversed;

verus! {

/// The statement with `a += e` rewritten to `a = a + e`, at every depth. The variable
/// read on the right spans the name's bytes from the statement's first column.
pub open spec fn desugar_stmt(b: BaseExprView<()>) -> BaseExprView<()>
    decreases b,
{
    match b.data {
        BaseExprDataView::PlusEquals(v, e) => BaseExprView {
            data: BaseExprDataView::VariableAssignment(
                v,
                RecExprView {
                    data: RecExprDataView::Binary(
                        BinaryKind::Add,
                        Box::new(RecExprView {
                            data: RecExprDataView::Variable(v),
                            row: b.row,
                            col_start: b.col_start,
                            col_end: b.col_start + utf8_len(v),
                            generic_data: (),
                        }),
                        Box::new(e),
                    ),
                    row: b.row,
                    col_start: b.col_start,
                    col_end: b.col_end,
                    generic_data: (),
                },
            ),
            ..b
        },
        BaseExprDataView::If(c, body, els) => BaseExprView {
            data: BaseExprDataView::If(c, desugar_stmts(body), match els {
                Some(x) => Some(Box::new(desugar_stmt(*x))),
                None => None,
            }),
            ..b
        },
        BaseExprDataView::ElseIf(c, body, els) => BaseExprView {
            data: BaseExprDataView::ElseIf(c, desugar_stmts(body), match els {
                Some(x) => Some(Box::new(desugar_stmt(*x))),
                None => None,
            }),
            ..b
        },
        BaseExprDataView::Else(body) => BaseExprView { data: BaseExprDataView::Else(desugar_stmts(body)), ..b },
        BaseExprDataView::ForLoop(v, u, body) => BaseExprView { data: BaseExprDataView::ForLoop(v, u, desugar_stmts(body)), ..b },
        BaseExprDataView::FunctionDefinition(f, a, body) => BaseExprView {
            data: BaseExprDataView::FunctionDefinition(f, a, desugar_stmts(body)),
            ..b
        },
        _ => b,
    }
}

/// Each statement desugared, in order.
pub open spec fn desugar_stmts(s: Seq<BaseExprView<()>>) -> Seq<BaseExprView<()>>
    decreases s,
{
    if s.len() == 0 {
        seq![]
    } else {
        desugar_stmts(s.drop_last()).push(desugar_stmt(s.last()))
    }
}

/// Whether the end column of the variable read that desugaring writes for each `+=`
/// statement, at any depth, fits in a `usize`.
pub open spec fn stmt_fits(b: BaseExprView<()>) -> bool
    decreases b,
{
    match b.data {
        BaseExprDataView::PlusEquals(v, e) => b.col_start + utf8_len(v) <= usize::MAX,
        BaseExprDataView::If(c, body, els) => stmts_fit(body) && match els {
            Some(x) => stmt_fits(*x),
            None => true,
        },
        BaseExprDataView::ElseIf(c, body, els) => stmts_fit(body) && match els {
            Some(x) => stmt_fits(*x),
            None => true,
        },
        BaseExprDataView::Else(body) => stmts_fit(body),
        BaseExprDataView::ForLoop(v, u, body) => stmts_fit(body),
        BaseExprDataView::FunctionDefinition(f, a, body) => stmts_fit(body),
        _ => true,
    }
}

/// Whether every statement fits, in the sense of `stmt_fits`.
pub open spec fn stmts_fit(s: Seq<BaseExprView<()>>) -> bool
    decreases s,
{
    if s.len() == 0 {
        true
    } else {
        stmts_fit(s.drop_last()) && stmt_fits(s.last())
    }
}

/// `stmts_fit` holds of each statement of a sequence that fits.
pub proof fn lemma_stmts_fit(s: Seq<BaseExprView<()>>)
    requires
        stmts_fit(s),
    ensures
        forall|i: int| 0 <= i < s.len() ==> stmt_fits(#[trigger] s[i]),
    decreases s.len(),
{
    if s.len() > 0 {
        lemma_stmts_fit(s.drop_last());
        assert forall|i: int| 0 <= i < s.len() implies stmt_fits(#[trigger] s[i]) by {
            if i < s.len() - 1 {
                assert(s[i] == s.drop_last()[i]);
            }
        }
    }
}

/// The column after a name written from column `start`: `start` plus the name's length
/// in UTF-8 bytes, if that fits in a `usize`.
fn end_column(start: usize, name: &String) -> (r: Option<usize>)
    ensures
        r matches Some(x) ==> x == start + utf8_len(name@),
        r is None ==> start + utf8_len(name@) > usize::MAX,
{
    let chars = string_to_chars(name);
    let mut acc: usize = start;
    let mut i: usize = 0;
    while i < chars.len()
        invariant
            i <= chars@.len(),
            chars@ == name@,
            acc == start + utf8_len(chars@.subrange(0, i as int)),
        decreases chars@.len() - i,
    {
        let c = chars[i];
        let k: usize = if (c as u32) < 0x80 {
            1
        } else if (c as u32) < 0x800 {
            2
        } else if (c as u32) < 0x10000 {
            3
        } else {
            4
        };
        assert(chars@.subrange(0, i + 1).drop_last() =~= chars@.subrange(0, i as int));
        assert(k == char_utf8_len(c));
        match acc.checked_add(k) {
            Some(x) => acc = x,
            None => {
                proof { lemma_utf8_len_grows(chars@, i + 1); }
                return None;
            },
        }
        i = i + 1;
    }
    assert(chars@.subrange(0, chars@.len() as int) =~= chars@);
    Some(acc)
}

/// The UTF-8 length of a prefix is at most that of the whole.
proof fn lemma_utf8_len_grows(s: Seq<char>, k: int)
    requires
        0 <= k <= s.len(),
    ensures
        utf8_len(s.subrange(0, k)) <= utf8_len(s),
    decreases s.len() - k,
{
    if k < s.len() {
        assert(s.drop_last().subrange(0, k) =~= s.subrange(0, k));
        lemma_utf8_len_grows(s.drop_last(), k);
    } else {
        assert(s.subrange(0, k) =~= s);
    }
}

/// Desugars one statement; the result holds exactly one statement.
fn desugar_base_expr(base_expr: BaseExpr<()>) -> (r: Vec<BaseExpr<()>>)
    requires
        stmt_fits(base_view(base_expr)),
    ensures
        r@.len() == 1,
        base_view(r@[0]) == desugar_stmt(base_view(base_expr)),
    decreases base_expr,
{
    let ghost bv = base_view(base_expr);
    let BaseExpr { data, row, col_start, col_end, generic_data } = base_expr;
    let out = match data {
        BaseExprData::PlusEqualsStatement { var_name, expr } => {
            let end = match end_column(col_start, &var_name) {
                Some(x) => x,
                None => col_start,
            };
            let left = RecExpr {
                data: RecExprData::Variable { name: var_name.clone() },
                row,
                col_start,
                col_end: end,
                generic_data: (),
            };
            let sum = RecExpr {
                data: RecExprData::Add { left: Box::new(left), right: Box::new(expr) },
                row,
                col_start,
                col_end,
                generic_data: (),
            };
            assert(rec_view(left) == RecExprView {
                data: RecExprDataView::Variable(var_name@),
                row: row as int,
                col_start: col_start as int,
                col_end: col_start + utf8_len(var_name@),
                generic_data: (),
            });
            let nb = BaseExpr { data: BaseExprData::VariableAssignment { var_name, expr: sum }, row, col_start, col_end, generic_data };
            assert(base_view(nb) == desugar_stmt(bv));
            nb
        },
        BaseExprData::ForLoop { var_name, until, body } => {
            let body = desugar(body);
            let nb = BaseExpr { data: BaseExprData::ForLoop { var_name, until, body }, row, col_start, col_end, generic_data };
            assert(base_view(nb) == desugar_stmt(bv));
            nb
        },
        BaseExprData::IfStatement { condition, body, else_statement } => {
            let body = desugar(body);
            let else_statement = match else_statement {
                Some(e) => {
                    let mut d = desugar_base_expr(*e);
                    Some(Box::new(d.pop().unwrap()))
                },
                None => None,
            };
            let nb = BaseExpr { data: BaseExprData::IfStatement { condition, body, else_statement }, row, col_start, col_end, generic_data };
            assert(base_view(nb) == desugar_stmt(bv));
            nb
        },
        BaseExprData::ElseIfStatement { condition, body, else_statement } => {
            let body = desugar(body);
            let else_statement = match else_statement {
                Some(e) => {
                    let mut d = desugar_base_expr(*e);
                    Some(Box::new(d.pop().unwrap()))
                },
                None => None,
            };
            let nb = BaseExpr { data: BaseExprData::ElseIfStatement { condition, body, else_statement }, row, col_start, col_end, generic_data };
            assert(base_view(nb) == desugar_stmt(bv));
            nb
        },
        BaseExprData::ElseStatement { body } => {
            let body = desugar(body);
            let nb = BaseExpr { data: BaseExprData::ElseStatement { body }, row, col_start, col_end, generic_data };
            assert(base_view(nb) == desugar_stmt(bv));
            nb
        },
        BaseExprData::FunctionDefinition { fun_name, args, body } => {
            let body = desugar(body);
            let nb = BaseExpr { data: BaseExprData::FunctionDefinition { fun_name, args, body }, row, col_start, col_end, generic_data };
            assert(base_view(nb) == desugar_stmt(bv));
            nb
        },
        other => {
            let nb = BaseExpr { data: other, row, col_start, col_end, generic_data };
            assert(base_view(nb) == desugar_stmt(bv));
            nb
        },
    };
    assert(base_view(out) == desugar_stmt(bv));
    let mut r = Vec::new();
    r.push(out);
    r
}

/// Desugars each statement, keeping their order: every `a += e` statement, at any
/// depth, becomes `a = a + e`.
pub fn desugar(base_expressions: Vec<BaseExpr<()>>) -> (r: Vec<BaseExpr<()>>)
    requires
        stmts_fit(bases_view(base_expressions@)),
    ensures
        bases_view(r@) == desugar_stmts(bases_view(base_expressions@)),
    decreases base_expressions@,
{
    let ghost s = base_expressions@;
    proof {
        lemma_bases_view(s);
        lemma_stmts_fit(bases_view(s));
    }
    let mut rev = reversed(base_expressions);
    let mut desugared_expressions: Vec<BaseExpr<()>> = Vec::new();
    assert(s.subrange(0, 0) =~= Seq::<BaseExpr<()>>::empty());
    assert(bases_view(desugared_expressions@) =~= Seq::<BaseExprView<()>>::empty());
    while rev.len() > 0
        invariant
            s == base_expressions@,
            rev@.len() <= s.len(),
            bases_view(s).len() == s.len(),
            forall|i: int| 0 <= i < s.len() ==> #[trigger] bases_view(s)[i] == base_view(s[i]),
            forall|i: int| 0 <= i < s.len() ==> stmt_fits(#[trigger] bases_view(s)[i]),
            forall|i: int| 0 <= i < rev@.len() ==> #[trigger] rev@[i] == s[s.len() - 1 - i],
            bases_view(desugared_expressions@) == desugar_stmts(bases_view(s.subrange(0, s.len() - rev@.len()))),
        decreases rev@.len(),
    {
        let ghost k = s.len() - rev@.len();
        let b = rev.pop().unwrap();
        assert(b == s[k]);
        assert(stmt_fits(bases_view(s)[k]));
        assert(decreases_to!(s => s[k]));
        let mut d = desugar_base_expr(b);
        let x = d.pop().unwrap();
        let ghost before = desugared_expressions@;
        desugared_expressions.push(x);
        proof {
            assert(desugared_expressions@.drop_last() =~= before);
            assert(s.subrange(0, k + 1).drop_last() =~= s.subrange(0, k));
            assert(bases_view(s.subrange(0, k + 1)) == bases_view(s.subrange(0, k)).push(base_view(s[k])));
            assert(bases_view(s.subrange(0, k)).push(base_view(s[k])).drop_last() =~= bases_view(s.subrange(0, k)));
        }
    }
    assert(s.subrange(0, s.len() as int) =~= s);
    desugared_expressions
}

/// Whether no `+=` statement occurs in the statement, at any depth.
pub open spec fn stmt_sugar_free(b: BaseExprView<()>) -> bool
    decreases b,
{
    match b.data {
        BaseExprDataView::PlusEquals(v, e) => false,
        BaseExprDataView::If(c, body, els) => stmts_sugar_free(body) && match els {
            Some(x) => stmt_sugar_free(*x),
            None => true,
        },
        BaseExprDataView::ElseIf(c, body, els) => stmts_sugar_free(body) && match els {
            Some(x) => stmt_sugar_free(*x),
            None => true,
        },
        BaseExprDataView::Else(body) => stmts_sugar_free(body),
        BaseExprDataView::ForLoop(v, u, body) => stmts_sugar_free(body),
        BaseExprDataView::FunctionDefinition(f, a, body) => stmts_sugar_free(body),
        _ => true,
    }
}

/// Whether no `+=` statement occurs in the statements, at any depth.
pub open spec fn stmts_sugar_free(s: Seq<BaseExprView<()>>) -> bool
    decreases s,
{
    if s.len() == 0 {
        true
    } else {
        stmts_sugar_free(s.drop_last()) && stmt_sugar_free(s.last())
    }
}

/// Desugaring a statement leaves no `+=` statement in it, and leaves a statement with
/// none unchanged.
pub proof fn lemma_desugar_stmt(b: BaseExprView<()>)
    ensures
        stmt_sugar_free(desugar_stmt(b)),
        stmt_sugar_free(b) ==> desugar_stmt(b) == b,
    decreases b,
{
    match b.data {
        BaseExprDataView::If(c, body, els) => {
            lemma_desugar_stmts(body);
            if let Some(x) = els {
                lemma_desugar_stmt(*x);
            }
        },
        BaseExprDataView::ElseIf(c, body, els) => {
            lemma_desugar_stmts(body);
            if let Some(x) = els {
                lemma_desugar_stmt(*x);
            }
        },
        BaseExprDataView::Else(body) => lemma_desugar_stmts(body),
        BaseExprDataView::ForLoop(v, u, body) => lemma_desugar_stmts(body),
        BaseExprDataView::FunctionDefinition(f, a, body) => lemma_desugar_stmts(body),
        _ => {},
    }
}

/// Desugaring keeps the number of statements, leaves no `+=` statement at any depth, and
/// leaves statements with none unchanged.
pub proof fn lemma_desugar_stmts(s: Seq<BaseExprView<()>>)
    ensures
        desugar_stmts(s).len() == s.len(),
        stmts_sugar_free(desugar_stmts(s)),
        stmts_sugar_free(s) ==> desugar_stmts(s) == s,
    decreases s,
{
    if s.len() > 0 {
        lemma_desugar_stmts(s.drop_last());
        lemma_desugar_stmt(s.last());
        let d = desugar_stmts(s);
        assert(d.drop_last() =~= desugar_stmts(s.drop_last()));
        if stmts_sugar_free(s) {
            assert(d =~= s.drop_last().push(s.last()));
            assert(s.drop_last().push(s.last()) =~= s);
        }
    }
}

/// Whether `d` is `b` with the same place and kind: a `+=` statement became an assignment
/// to the same variable; any other statement keeps its kind and the parts that are no
/// body of statements (a condition, a loop variable and range, a function's name and
/// parameters), and a statement without a body is unchanged.
pub open spec fn same_kind_and_place(b: BaseExprView<()>, d: BaseExprView<()>) -> bool {
    &&& d.row == b.row && d.col_start == b.col_start && d.col_end == b.col_end
    &&& match b.data {
        BaseExprDataView::PlusEquals(v, _) => d.data matches BaseExprDataView::VariableAssignment(w, _) && w == v,
        BaseExprDataView::If(c, _, els) => d.data matches BaseExprDataView::If(c2, _, els2) && c2 == c && (els is Some <==> els2 is Some),
        BaseExprDataView::ElseIf(c, _, els) => d.data matches BaseExprDataView::ElseIf(c2, _, els2) && c2 == c && (els is Some <==> els2 is Some),
        BaseExprDataView::Else(_) => d.data is Else,
        BaseExprDataView::ForLoop(v, u, _) => d.data matches BaseExprDataView::ForLoop(v2, u2, _) && v2 == v && u2 == u,
        BaseExprDataView::FunctionDefinition(f, a, _) => d.data matches BaseExprDataView::FunctionDefinition(f2, a2, _) && f2 == f && a2 == a,
        _ => d == b,
    }
}

/// Desugaring keeps each statement in its place: the `k`-th statement of the result is
/// the `k`-th statement desugared, with the same place and kind; no `+=` statement is left
/// at any depth, and desugaring the result again changes nothing.
pub proof fn lemma_desugar_keeps_statements(s: Seq<BaseExprView<()>>)
    ensures
        desugar_stmts(s).len() == s.len(),
        stmts_sugar_free(desugar_stmts(s)),
        desugar_stmts(desugar_stmts(s)) == desugar_stmts(s),
        forall|k: int| 0 <= k < s.len() ==> #[trigger] desugar_stmts(s)[k] == desugar_stmt(s[k])
            && same_kind_and_place(s[k], desugar_stmt(s[k])),
    decreases s.len(),
{
    lemma_desugar_stmts(s);
    lemma_desugar_idempotent(s);
    if s.len() > 0 {
        lemma_desugar_keeps_statements(s.drop_last());
        assert forall|k: int| 0 <= k < s.len() implies #[trigger] desugar_stmts(s)[k] == desugar_stmt(s[k])
            && same_kind_and_place(s[k], desugar_stmt(s[k])) by {
            if k < s.len() - 1 {
                assert(desugar_stmts(s)[k] == desugar_stmts(s.drop_last())[k]);
                assert(s.drop_last()[k] == s[k]);
            }
        }
    }
}

/// Desugaring twice gives what desugaring once gives.
pub proof fn lemma_desugar_idempotent(s: Seq<BaseExprView<()>>)
    ensures
        desugar_stmts(desugar_stmts(s)) == desugar_stmts(s),
{
    lemma_desugar_stmts(s);
    lemma_desugar_stmts(desugar_stmts(s));
}

proof fn lemma_fit_prefix_fails(s: Seq<BaseExprView<()>>, k: int)
    requires
        0 <= k <= s.len(),
        !stmts_fit(s.subrange(0, k)),
    ensures
        !stmts_fit(s),
    decreases s.len() - k,
{
    if k < s.len() {
        assert(s.drop_last().subrange(0, k) =~= s.subrange(0, k));
        lemma_fit_prefix_fails(s.drop_last(), k);
    } else {
        assert(s.subrange(0, k) =~= s);
    }
}

fn stmt_fits_exec(b: &BaseExpr<()>) -> (r: bool)
    ensures
        r == stmt_fits(base_view(*b)),
    decreases b, 1nat,
{
    match &b.data {
        BaseExprData::PlusEqualsStatement { var_name, .. } => {
            end_column(b.col_start, var_name).is_some()
        },
        BaseExprData::IfStatement { body, else_statement, .. } | BaseExprData::ElseIfStatement { body, else_statement, .. } => {
            let a = stmts_fit_exec(body);
            let c = match else_statement {
                Some(x) => stmt_fits_exec(&**x),
                None => true,
            };
            a && c
        },
        BaseExprData::ElseStatement { body } | BaseExprData::ForLoop { body, .. } | BaseExprData::FunctionDefinition { body, .. } => stmts_fit_exec(body),
        _ => true,
    }
}

/// Whether desugaring can place every variable read it writes (see `stmts_fit`).
pub fn stmts_fit_exec(v: &Vec<BaseExpr<()>>) -> (r: bool)
    ensures
        r == stmts_fit(bases_view(v@)),
    decreases v, 0nat,
{
    let ghost bv = bases_view(v@);
    proof { lemma_bases_view(v@); }
    let mut i: usize = 0;
    assert(bv.subrange(0, 0) =~= Seq::<BaseExprView<()>>::empty());
    while i < v.len()
        invariant
            i <= v@.len(),
            bv == bases_view(v@),
            bv.len() == v@.len(),
            forall|j: int| 0 <= j < v@.len() ==> #[trigger] bv[j] == base_view(v@[j]),
            stmts_fit(bv.subrange(0, i as int)),
        decreases v@.len() - i,
    {
        proof { assert(decreases_to!(v => v@[i as int])); }
        assert(bv.subrange(0, i + 1).drop_last() =~= bv.subrange(0, i as int));
        if !stmt_fits_exec(&v[i]) {
            proof { lemma_fit_prefix_fails(bv, i + 1); }
            return false;
        }
        i = i + 1;
    }
    assert(bv.subrange(0, v@.len() as int) =~= bv);
    true
}

} // verus!
