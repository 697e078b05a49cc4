//! Renaming every variable to a name unique in the program: a base name followed by a
//! count of the variables of that base name named before it.
use vstd::prelude::*;
use crate::tokenizer::Error;
use crate::parser::BaseExpr;
use crate::parser::BaseExprData;
use crate::parser::BaseExprView;
use crate::parser::BaseExprDataView;
use crate::parser::RecExpr;
use crate::parser::RecExprData;
use crate::parser::RecExprView;
use crate::parser::RecExprDataView;
use crate::parser::BinaryKind;
use crate::parser::rec_view;
use crate::parser::recs_view;
use crate::parser::base_view;
use crate::parser::bases_view;
use crate::parser::strings_view;
use crate::parser::rec_size;
use crate::parser::recs_size;
use crate::parser::stmt_size;
use crate::parser::stmts_size;
use crate::parser::lemma_recs_size;
use crate::parser::lemma_stmts_size;
use crate::parser::lemma_recs_view;
use crate::parser::lemma_bases_view;
use crate::typechecker::Type;
use crate::typechecker::FunctionType;
use crate::typechecker::FunctionTypeView;
use crate::typechecker::fns_view;
use crate::typechecker::fn_view;
use crate::typechecker::binary_data;
use crate::text::numbered_name;
use crate::text::nat_digits;
use crate::text::is_digit;
use crate::text::lemma_nat_digits_shape;
use crate::text::lemma_nat_digits_injective;
use crate::vecs::reversed;
use crate::registerallocation::variableclassifier::assoc_is;
use crate::registerallocation::variableclassifier::assoc_set;

verus! {

/// The state of renaming: the scopes of names in reach, innermost last, each a list of
/// pairs of a name and its new name; and for each base name, how many new names were
/// made from it.
pub struct UState {
    pub env: Seq<Seq<(Seq<char>, Seq<char>)>>,
    pub counters: Map<Seq<char>, nat>,
}

/// The new name of `x` in one scope, the latest binding first.
pub open spec fn scope_lookup(s: Seq<(Seq<char>, Seq<char>)>, x: Seq<char>) -> Option<Seq<char>>
    decreases s.len(),
{
    if s.len() == 0 {
        None
    } else if s.last().0 == x {
        Some(s.last().1)
    } else {
        scope_lookup(s.drop_last(), x)
    }
}

/// The new name of `x`, from the innermost scope that binds it.
pub open spec fn env_lookup(env: Seq<Seq<(Seq<char>, Seq<char>)>>, x: Seq<char>) -> Option<Seq<char>>
    decreases env.len(),
{
    if env.len() == 0 {
        None
    } else {
        match scope_lookup(env.last(), x) {
            Some(u) => Some(u),
            None => env_lookup(env.drop_last(), x),
        }
    }
}

/// How many new names were made from the base name `x`.
pub open spec fn count_of(st: UState, x: Seq<char>) -> nat {
    if st.counters.contains_key(x) {
        st.counters[x]
    } else {
        0
    }
}

/// A new name for `x`, bound in the innermost scope: `x` followed by its count.
pub open spec fn bind_new(st: UState, x: Seq<char>) -> Option<(Seq<char>, UState)> {
    let c = count_of(st, x);
    if c >= usize::MAX || st.env.len() == 0 {
        None
    } else {
        let name = x + nat_digits(c);
        Some((name, UState {
            env: st.env.update(st.env.len() - 1, st.env.last().push((x, name))),
            counters: st.counters.insert(x, c + 1),
        }))
    }
}

/// The new name of an assigned variable: the one in reach, or else a new one.
pub open spec fn define(st: UState, x: Seq<char>) -> Option<(Seq<char>, UState)> {
    match env_lookup(st.env, x) {
        Some(u) => Some((u, st)),
        None => bind_new(st, x),
    }
}

/// The state with a new innermost scope.
pub open spec fn push_scope(st: UState) -> UState {
    UState { env: st.env.push(seq![]), ..st }
}

/// The state without its innermost scope.
pub open spec fn pop_scope(st: UState) -> UState {
    UState { env: st.env.drop_last(), ..st }
}

/// An expression with new data.
pub open spec fn with_data(e: RecExprView<Type>, d: RecExprDataView<Type>) -> RecExprView<Type> {
    RecExprView { data: d, ..e }
}

/// Renames the variables of an expression. A variable or list that is read must be in
/// reach; the target of an assignment is given a new name when it is not. Field accesses
/// are kept as they are.
pub open spec fn uniq_rec(e: RecExprView<Type>, st: UState) -> Option<(RecExprView<Type>, UState)>
    decreases rec_size(e), 1nat,
{
    match e.data {
        RecExprDataView::Variable(x) => match env_lookup(st.env, x) {
            None => None,
            Some(u) => Some((with_data(e, RecExprDataView::Variable(u)), st)),
        },
        RecExprDataView::Assign(x, r) => match define(st, x) {
            None => None,
            Some((u, st1)) => match uniq_rec(*r, st1) {
                None => None,
                Some((r2, st2)) => Some((with_data(e, RecExprDataView::Assign(u, Box::new(r2))), st2)),
            },
        },
        RecExprDataView::Binary(k, l, r) => match uniq_rec(*l, st) {
            None => None,
            Some((l2, st1)) => match uniq_rec(*r, st1) {
                None => None,
                Some((r2, st2)) => Some((with_data(e, RecExprDataView::Binary(k, Box::new(l2), Box::new(r2))), st2)),
            },
        },
        RecExprDataView::Minus(r) => match uniq_rec(*r, st) {
            None => None,
            Some((r2, st1)) => Some((with_data(e, RecExprDataView::Minus(Box::new(r2))), st1)),
        },
        RecExprDataView::Not(r) => match uniq_rec(*r, st) {
            None => None,
            Some((r2, st1)) => Some((with_data(e, RecExprDataView::Not(Box::new(r2))), st1)),
        },
        RecExprDataView::FunctionCall(f, args) => match uniq_recs(args, st) {
            None => None,
            Some((a2, st1)) => Some((with_data(e, RecExprDataView::FunctionCall(f, a2)), st1)),
        },
        RecExprDataView::List(els) => match uniq_recs(els, st) {
            None => None,
            Some((a2, st1)) => Some((with_data(e, RecExprDataView::List(a2)), st1)),
        },
        RecExprDataView::ListAccess(v, i) => match env_lookup(st.env, v) {
            None => None,
            Some(u) => match uniq_rec(*i, st) {
                None => None,
                Some((i2, st1)) => Some((with_data(e, RecExprDataView::ListAccess(u, Box::new(i2))), st1)),
            },
        },
        _ => Some((e, st)),
    }
}

/// Renames the variables of expressions, in order.
pub open spec fn uniq_recs(s: Seq<RecExprView<Type>>, st: UState) -> Option<(Seq<RecExprView<Type>>, UState)>
    decreases recs_size(s), 0nat,
{
    if s.len() == 0 {
        Some((seq![], st))
    } else {
        proof {
            lemma_recs_size(s.drop_last());
            assert(recs_size(s) == recs_size(s.drop_last()) + rec_size(s.last()));
        }
        match uniq_recs(s.drop_last(), st) {
            None => None,
            Some((s2, st1)) => match uniq_rec(s.last(), st1) {
                None => None,
                Some((e2, st2)) => Some((s2.push(e2), st2)),
            },
        }
    }
}

/// A statement with new data.
pub open spec fn with_stmt(b: BaseExprView<Type>, d: BaseExprDataView<Type>) -> BaseExprView<Type> {
    BaseExprView { data: d, ..b }
}

/// Renames an `else` part in its own scope.
pub open spec fn uniq_else(els: Option<Box<BaseExprView<Type>>>, st: UState) -> Option<(Option<Box<BaseExprView<Type>>>, UState)>
    decreases match els { Some(x) => stmt_size(*x), None => 0 }, 2nat,
{
    match els {
        None => Some((None, st)),
        Some(x) => match uniq_stmt(*x, push_scope(st)) {
            None => None,
            Some((x2, st1)) => Some((Some(Box::new(x2)), pop_scope(st1))),
        },
    }
}

/// Renames the variables of a statement. Bodies of conditionals and loops, and `else`
/// parts, get a scope of their own; a loop variable always gets a new name; function
/// definitions are kept as they are.
pub open spec fn uniq_stmt(b: BaseExprView<Type>, st: UState) -> Option<(BaseExprView<Type>, UState)>
    decreases stmt_size(b), 1nat,
{
    match b.data {
        BaseExprDataView::Simple(e) => match uniq_rec(e, st) {
            None => None,
            Some((e2, st1)) => Some((with_stmt(b, BaseExprDataView::Simple(e2)), st1)),
        },
        BaseExprDataView::VariableAssignment(x, e) => match define(st, x) {
            None => None,
            Some((u, st1)) => match uniq_rec(e, st1) {
                None => None,
                Some((e2, st2)) => Some((with_stmt(b, BaseExprDataView::VariableAssignment(u, e2)), st2)),
            },
        },
        BaseExprDataView::PlusEquals(x, e) => match env_lookup(st.env, x) {
            None => None,
            Some(u) => match uniq_rec(e, st) {
                None => None,
                Some((e2, st1)) => Some((with_stmt(b, BaseExprDataView::PlusEquals(u, e2)), st1)),
            },
        },
        BaseExprDataView::If(c, body, els) => match uniq_rec(c, st) {
            None => None,
            Some((c2, st1)) => match uniq_block(body, push_scope(st1)) {
                None => None,
                Some((body2, st2)) => match uniq_else(els, pop_scope(st2)) {
                    None => None,
                    Some((els2, st3)) => Some((with_stmt(b, BaseExprDataView::If(c2, body2, els2)), st3)),
                },
            },
        },
        BaseExprDataView::ElseIf(c, body, els) => match uniq_rec(c, st) {
            None => None,
            Some((c2, st1)) => match uniq_block(body, push_scope(st1)) {
                None => None,
                Some((body2, st2)) => match uniq_else(els, pop_scope(st2)) {
                    None => None,
                    Some((els2, st3)) => Some((with_stmt(b, BaseExprDataView::ElseIf(c2, body2, els2)), st3)),
                },
            },
        },
        BaseExprDataView::Else(body) => match uniq_block(body, push_scope(st)) {
            None => None,
            Some((body2, st1)) => Some((with_stmt(b, BaseExprDataView::Else(body2)), pop_scope(st1))),
        },
        BaseExprDataView::ForLoop(x, until, body) => match uniq_rec(until, st) {
            None => None,
            Some((u2, st1)) => match bind_new(push_scope(st1), x) {
                None => None,
                Some((name, st2)) => match uniq_block(body, st2) {
                    None => None,
                    Some((body2, st3)) => Some((with_stmt(b, BaseExprDataView::ForLoop(name, u2, body2)), pop_scope(st3))),
                },
            },
        },
        BaseExprDataView::Return(Some(e)) => match uniq_rec(e, st) {
            None => None,
            Some((e2, st1)) => Some((with_stmt(b, BaseExprDataView::Return(Some(e2))), st1)),
        },
        _ => Some((b, st)),
    }
}

/// Renames the variables of statements, in order.
pub open spec fn uniq_block(s: Seq<BaseExprView<Type>>, st: UState) -> Option<(Seq<BaseExprView<Type>>, UState)>
    decreases stmts_size(s), 0nat,
{
    if s.len() == 0 {
        Some((seq![], st))
    } else {
        proof {
            lemma_stmts_size(s.drop_last());
            assert(stmts_size(s) == stmts_size(s.drop_last()) + stmt_size(s.last()));
        }
        match uniq_block(s.drop_last(), st) {
            None => None,
            Some((s2, st1)) => match uniq_stmt(s.last(), st1) {
                None => None,
                Some((b2, st2)) => Some((s2.push(b2), st2)),
            },
        }
    }
}

/// Renames parameters in order; a repeated parameter keeps the name of its first.
pub open spec fn uniq_params(ps: Seq<Seq<char>>, st: UState) -> Option<(Seq<Seq<char>>, UState)>
    decreases ps.len(),
{
    if ps.len() == 0 {
        Some((seq![], st))
    } else {
        match uniq_params(ps.drop_last(), st) {
            None => None,
            Some((ps2, st1)) => match define(st1, ps.last()) {
                None => None,
                Some((u, st2)) => Some((ps2.push(u), st2)),
            },
        }
    }
}

/// Renames a function: its parameters, then its body, in a scope of its own.
pub open spec fn uniq_function(f: FunctionTypeView, counters: Map<Seq<char>, nat>) -> Option<(FunctionTypeView, Map<Seq<char>, nat>)> {
    let st0 = UState { env: seq![seq![]], counters };
    match uniq_params(f.param_names, st0) {
        None => None,
        Some((ps, st1)) => match uniq_block(f.content, st1) {
            None => None,
            Some((c, st2)) => Some((FunctionTypeView { param_names: ps, content: c, ..f }, st2.counters)),
        },
    }
}

/// Renames functions, in order.
pub open spec fn uniq_functions(fs: Seq<FunctionTypeView>, counters: Map<Seq<char>, nat>) -> Option<(Seq<FunctionTypeView>, Map<Seq<char>, nat>)>
    decreases fs.len(),
{
    if fs.len() == 0 {
        Some((seq![], counters))
    } else {
        match uniq_functions(fs.drop_last(), counters) {
            None => None,
            Some((fs2, c1)) => match uniq_function(fs.last(), c1) {
                None => None,
                Some((f2, c2)) => Some((fs2.push(f2), c2)),
            },
        }
    }
}

/// Renames a program: first the functions, then the main statements, in a scope of
/// their own; the counts of base names run on through the whole program. None where a
/// variable is read outside the reach of any assignment to it.
pub open spec fn uniq_program(bases: Seq<BaseExprView<Type>>, fs: Seq<FunctionTypeView>) -> Option<(Seq<BaseExprView<Type>>, Seq<FunctionTypeView>)> {
    match uniq_functions(fs, Map::empty()) {
        None => None,
        Some((fs2, c)) => match uniq_block(bases, UState { env: seq![seq![]], counters: c }) {
            None => None,
            Some((b2, _)) => Some((b2, fs2)),
        },
    }
}

/// The working state of renaming: scopes of names in reach, innermost last, and the
/// count of new names made from each base name.
struct UniqState {
    scopes: Vec<Vec<(String, String)>>,
    counters: Vec<(String, usize)>,
    counts: Ghost<Map<Seq<char>, nat>>,
}

/// The pairs of a scope.
pub open spec fn scope_view(s: Vec<(String, String)>) -> Seq<(Seq<char>, Seq<char>)> {
    s@.map_values(|p: (String, String)| (p.0@, p.1@))
}

/// The scopes of an environment.
pub open spec fn env_view(v: Seq<Vec<(String, String)>>) -> Seq<Seq<(Seq<char>, Seq<char>)>> {
    v.map_values(|s: Vec<(String, String)>| scope_view(s))
}

spec fn ustate_view(st: UniqState) -> UState {
    UState { env: env_view(st.scopes@), counters: st.counts@ }
}

spec fn ustate_wf(st: UniqState) -> bool {
    &&& assoc_is(st.counters@, st.counts@)
    &&& st.scopes@.len() >= 1
}

fn scope_find(sc: &Vec<(String, String)>, x: &String) -> (r: Option<String>)
    ensures
        match scope_lookup(scope_view(*sc), x@) {
            None => r is None,
            Some(u) => r matches Some(y) && y@ == u,
        },
{
    let ghost sv = scope_view(*sc);
    let mut i = sc.len();
    assert(sv.subrange(0, i as int) =~= sv);
    while i > 0
        invariant
            i <= sc@.len(),
            sv == scope_view(*sc),
            scope_lookup(sv, x@) == scope_lookup(sv.subrange(0, i as int), x@),
        decreases i,
    {
        let ghost sub = sv.subrange(0, i as int);
        assert(sub.last() == (sc@[i - 1].0@, sc@[i - 1].1@));
        if sc[i - 1].0 == *x {
            return Some(sc[i - 1].1.clone());
        }
        assert(sub.drop_last() =~= sv.subrange(0, i - 1));
        i = i - 1;
    }
    None
}

fn env_find(scopes: &Vec<Vec<(String, String)>>, x: &String) -> (r: Option<String>)
    ensures
        match env_lookup(env_view(scopes@), x@) {
            None => r is None,
            Some(u) => r matches Some(y) && y@ == u,
        },
{
    let ghost ev = env_view(scopes@);
    let mut i = scopes.len();
    assert(ev.subrange(0, i as int) =~= ev);
    while i > 0
        invariant
            i <= scopes@.len(),
            ev == env_view(scopes@),
            env_lookup(ev, x@) == env_lookup(ev.subrange(0, i as int), x@),
        decreases i,
    {
        let ghost sub = ev.subrange(0, i as int);
        assert(sub.last() == scope_view(scopes@[i - 1]));
        match scope_find(&scopes[i - 1], x) {
            Some(u) => {
                return Some(u);
            },
            None => {},
        }
        assert(sub.drop_last() =~= ev.subrange(0, i - 1));
        i = i - 1;
    }
    None
}

fn count_get(counters: &Vec<(String, usize)>, x: &String, Ghost(m): Ghost<Map<Seq<char>, nat>>) -> (r: usize)
    requires
        assoc_is(counters@, m),
    ensures
        r == (if m.contains_key(x@) { m[x@] } else { 0 }),
{
    let mut i: usize = 0;
    while i < counters.len()
        invariant
            i <= counters@.len(),
            assoc_is(counters@, m),
            forall|j: int| 0 <= j < i ==> counters@[j].0@ != x@,
        decreases counters@.len() - i,
    {
        if counters[i].0 == *x {
            return counters[i].1;
        }
        i = i + 1;
    }
    proof {
        if m.contains_key(x@) {
            let j = choose|j: int| 0 <= j < counters@.len() && counters@[j].0@ == x@;
        }
    }
    0
}

fn bind_new_exec(st: &mut UniqState, x: &String) -> (r: Option<String>)
    requires
        ustate_wf(*old(st)),
    ensures
        match bind_new(ustate_view(*old(st)), x@) {
            None => r is None,
            Some((u, s2)) => r matches Some(y) && y@ == u && ustate_view(*final(st)) == s2 && ustate_wf(*final(st))
                && final(st).scopes@.len() == old(st).scopes@.len(),
        },
{
    let c = count_get(&st.counters, x, Ghost(st.counts@));
    if c == usize::MAX {
        return None;
    }
    let name = numbered_name(x.as_str(), c);
    assoc_set(&mut st.counters, x, c + 1, Ghost(st.counts@));
    let ghost old_counts = st.counts@;
    st.counts = Ghost(old_counts.insert(x@, (c + 1) as nat));
    let ghost before = st.scopes@;
    let mut sc = st.scopes.pop().unwrap();
    let ghost sc0 = sc;
    sc.push((x.clone(), name.clone()));
    st.scopes.push(sc);
    proof {
        assert(scope_view(sc) =~= scope_view(sc0).push((x@, name@)));
        assert(env_view(st.scopes@) =~= env_view(before).update(before.len() - 1, env_view(before).last().push((x@, name@))));
    }
    Some(name)
}

fn define_exec(st: &mut UniqState, x: &String) -> (r: Option<String>)
    requires
        ustate_wf(*old(st)),
    ensures
        match define(ustate_view(*old(st)), x@) {
            None => r is None,
            Some((u, s2)) => r matches Some(y) && y@ == u && ustate_view(*final(st)) == s2 && ustate_wf(*final(st))
                && final(st).scopes@.len() == old(st).scopes@.len(),
        },
{
    match env_find(&st.scopes, x) {
        Some(u) => Some(u),
        None => bind_new_exec(st, x),
    }
}

fn uniq_rec_exec(e: RecExpr<Type>, st: &mut UniqState) -> (r: Option<RecExpr<Type>>)
    requires
        ustate_wf(*old(st)),
    ensures
        match uniq_rec(rec_view(e), ustate_view(*old(st))) {
            None => r is None,
            Some((e2, s2)) => r matches Some(y) && rec_view(y) == e2 && ustate_view(*final(st)) == s2 && ustate_wf(*final(st))
                && final(st).scopes@.len() == old(st).scopes@.len(),
        },
    decreases rec_size(rec_view(e)), 1nat,
{
    let ghost ev = rec_view(e);
    let RecExpr { data, row, col_start, col_end, generic_data } = e;
    match data {
        RecExprData::Variable { name } => match env_find(&st.scopes, &name) {
            None => None,
            Some(u) => Some(RecExpr { data: RecExprData::Variable { name: u }, row, col_start, col_end, generic_data }),
        },
        RecExprData::Assign { variable_name, right } => {
            let u = match define_exec(st, &variable_name) {
                None => return None,
                Some(u) => u,
            };
            let r2 = match uniq_rec_exec(*right, st) {
                None => return None,
                Some(r2) => r2,
            };
            Some(RecExpr { data: RecExprData::Assign { variable_name: u, right: Box::new(r2) }, row, col_start, col_end, generic_data })
        },
        RecExprData::Add { left, right } => uniq_bin_exec(BinaryKind::Add, *left, *right, row, col_start, col_end, generic_data, st),
        RecExprData::Subtract { left, right } => uniq_bin_exec(BinaryKind::Subtract, *left, *right, row, col_start, col_end, generic_data, st),
        RecExprData::Multiply { left, right } => uniq_bin_exec(BinaryKind::Multiply, *left, *right, row, col_start, col_end, generic_data, st),
        RecExprData::Divide { left, right } => uniq_bin_exec(BinaryKind::Divide, *left, *right, row, col_start, col_end, generic_data, st),
        RecExprData::Power { left, right } => uniq_bin_exec(BinaryKind::Power, *left, *right, row, col_start, col_end, generic_data, st),
        RecExprData::Or { left, right } => uniq_bin_exec(BinaryKind::Or, *left, *right, row, col_start, col_end, generic_data, st),
        RecExprData::And { left, right } => uniq_bin_exec(BinaryKind::And, *left, *right, row, col_start, col_end, generic_data, st),
        RecExprData::Equals { left, right } => uniq_bin_exec(BinaryKind::Equals, *left, *right, row, col_start, col_end, generic_data, st),
        RecExprData::NotEquals { left, right } => uniq_bin_exec(BinaryKind::NotEquals, *left, *right, row, col_start, col_end, generic_data, st),
        RecExprData::GreaterThan { left, right } => uniq_bin_exec(BinaryKind::GreaterThan, *left, *right, row, col_start, col_end, generic_data, st),
        RecExprData::LessThan { left, right } => uniq_bin_exec(BinaryKind::LessThan, *left, *right, row, col_start, col_end, generic_data, st),
        RecExprData::GreaterThanOrEqual { left, right } => uniq_bin_exec(BinaryKind::GreaterThanOrEqual, *left, *right, row, col_start, col_end, generic_data, st),
        RecExprData::LessThanOrEqual { left, right } => uniq_bin_exec(BinaryKind::LessThanOrEqual, *left, *right, row, col_start, col_end, generic_data, st),
        RecExprData::Minus { right } => match uniq_rec_exec(*right, st) {
            None => None,
            Some(r2) => Some(RecExpr { data: RecExprData::Minus { right: Box::new(r2) }, row, col_start, col_end, generic_data }),
        },
        RecExprData::Not { right } => match uniq_rec_exec(*right, st) {
            None => None,
            Some(r2) => Some(RecExpr { data: RecExprData::Not { right: Box::new(r2) }, row, col_start, col_end, generic_data }),
        },
        RecExprData::FunctionCall { function_name, args } => match uniq_recs_exec(args, st) {
            None => None,
            Some(a2) => Some(RecExpr { data: RecExprData::FunctionCall { function_name, args: a2 }, row, col_start, col_end, generic_data }),
        },
        RecExprData::List { elements } => match uniq_recs_exec(elements, st) {
            None => None,
            Some(a2) => Some(RecExpr { data: RecExprData::List { elements: a2 }, row, col_start, col_end, generic_data }),
        },
        RecExprData::ListAccess { variable, index } => {
            let u = match env_find(&st.scopes, &variable) {
                None => return None,
                Some(u) => u,
            };
            match uniq_rec_exec(*index, st) {
                None => None,
                Some(i2) => Some(RecExpr { data: RecExprData::ListAccess { variable: u, index: Box::new(i2) }, row, col_start, col_end, generic_data }),
            }
        },
        other => Some(RecExpr { data: other, row, col_start, col_end, generic_data }),
    }
}

fn uniq_bin_exec(k: BinaryKind, l: RecExpr<Type>, r: RecExpr<Type>, row: usize, col_start: usize, col_end: usize, generic_data: Type, st: &mut UniqState) -> (res: Option<RecExpr<Type>>)
    requires
        ustate_wf(*old(st)),
    ensures
        match uniq_rec(RecExprView { data: RecExprDataView::Binary(k, Box::new(rec_view(l)), Box::new(rec_view(r))), row: row as int, col_start: col_start as int, col_end: col_end as int, generic_data }, ustate_view(*old(st))) {
            None => res is None,
            Some((e2, s2)) => res matches Some(y) && rec_view(y) == e2 && ustate_view(*final(st)) == s2 && ustate_wf(*final(st))
                && final(st).scopes@.len() == old(st).scopes@.len(),
        },
    decreases 1 + rec_size(rec_view(l)) + rec_size(rec_view(r)), 0nat,
{
    let l2 = match uniq_rec_exec(l, st) {
        None => return None,
        Some(x) => x,
    };
    let r2 = match uniq_rec_exec(r, st) {
        None => return None,
        Some(x) => x,
    };
    let data = binary_data(k, l2, r2);
    Some(RecExpr { data, row, col_start, col_end, generic_data })
}

proof fn lemma_uniq_recs_prefix(s: Seq<RecExprView<Type>>, st: UState, k: int)
    requires
        0 <= k <= s.len(),
        uniq_recs(s.subrange(0, k), st) is None,
    ensures
        uniq_recs(s, st) is None,
    decreases s.len() - k,
{
    if k < s.len() {
        assert(s.drop_last().subrange(0, k) =~= s.subrange(0, k));
        lemma_uniq_recs_prefix(s.drop_last(), st, k);
    } else {
        assert(s.subrange(0, k) =~= s);
    }
}

fn uniq_recs_exec(v: Vec<RecExpr<Type>>, st: &mut UniqState) -> (r: Option<Vec<RecExpr<Type>>>)
    requires
        ustate_wf(*old(st)),
    ensures
        match uniq_recs(recs_view(v@), ustate_view(*old(st))) {
            None => r is None,
            Some((s2, st2)) => r matches Some(y) && recs_view(y@) == s2 && ustate_view(*final(st)) == st2 && ustate_wf(*final(st))
                && final(st).scopes@.len() == old(st).scopes@.len(),
        },
    decreases recs_size(recs_view(v@)), 0nat,
{
    let ghost s = v@;
    let ghost sv = recs_view(s);
    let ghost st0 = ustate_view(*st);
    proof {
        lemma_recs_view(s);
        lemma_recs_size(sv);
    }
    let mut rev = reversed(v);
    let mut out: Vec<RecExpr<Type>> = Vec::new();
    assert(sv.subrange(0, 0) =~= Seq::<RecExprView<Type>>::empty());
    assert(recs_view(out@) =~= Seq::<RecExprView<Type>>::empty());
    while rev.len() > 0
        invariant
            s == v@,
            s.len() == sv.len(),
            sv == recs_view(s),
            rev@.len() <= s.len(),
            forall|i: int| 0 <= i < s.len() ==> #[trigger] sv[i] == rec_view(s[i]),
            forall|i: int| 0 <= i < s.len() ==> rec_size(#[trigger] sv[i]) < recs_size(sv),
            forall|i: int| 0 <= i < rev@.len() ==> #[trigger] rev@[i] == s[s.len() - 1 - i],
            st0.env.len() == old(st).scopes@.len(),
            st0 == ustate_view(*old(st)),
            ustate_wf(*st),
            st.scopes@.len() == old(st).scopes@.len(),
            uniq_recs(sv.subrange(0, s.len() - rev@.len()), st0) == Some((recs_view(out@), ustate_view(*st))),
        decreases rev@.len(),
    {
        let ghost k = s.len() - rev@.len();
        let e = rev.pop().unwrap();
        assert(e == s[k]);
        assert(sv.subrange(0, k + 1).drop_last() =~= sv.subrange(0, k));
        assert(sv.subrange(0, k + 1).last() == sv[k]);
        assert(rec_size(rec_view(e)) < recs_size(sv));
        match uniq_rec_exec(e, st) {
            None => {
                proof { lemma_uniq_recs_prefix(sv, st0, k + 1); }
                return None;
            },
            Some(e2) => {
                let ghost before = out@;
                out.push(e2);
                assert(out@.drop_last() =~= before);
            },
        }
    }
    assert(sv.subrange(0, s.len() as int) =~= sv);
    Some(out)
}

fn push_scope_exec(st: &mut UniqState)
    requires
        ustate_wf(*old(st)),
    ensures
        ustate_view(*final(st)) == push_scope(ustate_view(*old(st))),
        ustate_wf(*final(st)),
        final(st).scopes@.len() == old(st).scopes@.len() + 1,
{
    let ghost before = st.scopes@;
    st.scopes.push(Vec::new());
    assert(scope_view(st.scopes@.last()) =~= Seq::<(Seq<char>, Seq<char>)>::empty());
    assert(env_view(st.scopes@) =~= env_view(before).push(seq![]));
}

fn pop_scope_exec(st: &mut UniqState)
    requires
        ustate_wf(*old(st)),
        old(st).scopes@.len() >= 2,
    ensures
        ustate_view(*final(st)) == pop_scope(ustate_view(*old(st))),
        ustate_wf(*final(st)),
        final(st).scopes@.len() == old(st).scopes@.len() - 1,
{
    let ghost before = st.scopes@;
    let _ = st.scopes.pop();
    assert(env_view(st.scopes@) =~= env_view(before).drop_last());
}

fn uniq_else_exec(els: Option<Box<BaseExpr<Type>>>, st: &mut UniqState) -> (r: Option<Option<Box<BaseExpr<Type>>>>)
    requires
        ustate_wf(*old(st)),
    ensures
        match uniq_else(match els { Some(x) => Some(Box::new(base_view(*x))), None => None }, ustate_view(*old(st))) {
            None => r is None,
            Some((e2, s2)) => r matches Some(y) && (match y { Some(x) => Some(Box::new(base_view(*x))), None => None }) == e2
                && ustate_view(*final(st)) == s2 && ustate_wf(*final(st)) && final(st).scopes@.len() == old(st).scopes@.len(),
        },
    decreases match els { Some(x) => stmt_size(base_view(*x)), None => 0 }, 2nat,
{
    match els {
        None => Some(None),
        Some(x) => {
            push_scope_exec(st);
            match uniq_stmt_exec(*x, st) {
                None => None,
                Some(x2) => {
                    pop_scope_exec(st);
                    Some(Some(Box::new(x2)))
                },
            }
        },
    }
}

fn uniq_stmt_exec(b: BaseExpr<Type>, st: &mut UniqState) -> (r: Option<BaseExpr<Type>>)
    requires
        ustate_wf(*old(st)),
    ensures
        match uniq_stmt(base_view(b), ustate_view(*old(st))) {
            None => r is None,
            Some((b2, s2)) => r matches Some(y) && base_view(y) == b2 && ustate_view(*final(st)) == s2 && ustate_wf(*final(st))
                && final(st).scopes@.len() == old(st).scopes@.len(),
        },
    decreases stmt_size(base_view(b)), 1nat,
{
    let ghost bv = base_view(b);
    let BaseExpr { data, row, col_start, col_end, generic_data } = b;
    match data {
        BaseExprData::Simple { expr } => match uniq_rec_exec(expr, st) {
            None => None,
            Some(e2) => Some(BaseExpr { data: BaseExprData::Simple { expr: e2 }, row, col_start, col_end, generic_data }),
        },
        BaseExprData::VariableAssignment { var_name, expr } => {
            let u = match define_exec(st, &var_name) {
                None => return None,
                Some(u) => u,
            };
            match uniq_rec_exec(expr, st) {
                None => None,
                Some(e2) => Some(BaseExpr { data: BaseExprData::VariableAssignment { var_name: u, expr: e2 }, row, col_start, col_end, generic_data }),
            }
        },
        BaseExprData::PlusEqualsStatement { var_name, expr } => {
            let u = match env_find(&st.scopes, &var_name) {
                None => return None,
                Some(u) => u,
            };
            match uniq_rec_exec(expr, st) {
                None => None,
                Some(e2) => Some(BaseExpr { data: BaseExprData::PlusEqualsStatement { var_name: u, expr: e2 }, row, col_start, col_end, generic_data }),
            }
        },
        BaseExprData::IfStatement { condition, body, else_statement } => {
            let c2 = match uniq_rec_exec(condition, st) {
                None => return None,
                Some(c2) => c2,
            };
            push_scope_exec(st);
            let body2 = match uniq_block_exec(body, st) {
                None => return None,
                Some(b2) => b2,
            };
            pop_scope_exec(st);
            match uniq_else_exec(else_statement, st) {
                None => None,
                Some(e2) => Some(BaseExpr { data: BaseExprData::IfStatement { condition: c2, body: body2, else_statement: e2 }, row, col_start, col_end, generic_data }),
            }
        },
        BaseExprData::ElseIfStatement { condition, body, else_statement } => {
            let c2 = match uniq_rec_exec(condition, st) {
                None => return None,
                Some(c2) => c2,
            };
            push_scope_exec(st);
            let body2 = match uniq_block_exec(body, st) {
                None => return None,
                Some(b2) => b2,
            };
            pop_scope_exec(st);
            match uniq_else_exec(else_statement, st) {
                None => None,
                Some(e2) => Some(BaseExpr { data: BaseExprData::ElseIfStatement { condition: c2, body: body2, else_statement: e2 }, row, col_start, col_end, generic_data }),
            }
        },
        BaseExprData::ElseStatement { body } => {
            push_scope_exec(st);
            match uniq_block_exec(body, st) {
                None => None,
                Some(body2) => {
                    pop_scope_exec(st);
                    Some(BaseExpr { data: BaseExprData::ElseStatement { body: body2 }, row, col_start, col_end, generic_data })
                },
            }
        },
        BaseExprData::ForLoop { var_name, until, body } => {
            let u2 = match uniq_rec_exec(until, st) {
                None => return None,
                Some(u2) => u2,
            };
            push_scope_exec(st);
            let name = match bind_new_exec(st, &var_name) {
                None => return None,
                Some(n) => n,
            };
            match uniq_block_exec(body, st) {
                None => None,
                Some(body2) => {
                    pop_scope_exec(st);
                    Some(BaseExpr { data: BaseExprData::ForLoop { var_name: name, until: u2, body: body2 }, row, col_start, col_end, generic_data })
                },
            }
        },
        BaseExprData::Return { return_value: Some(e) } => match uniq_rec_exec(e, st) {
            None => None,
            Some(e2) => Some(BaseExpr { data: BaseExprData::Return { return_value: Some(e2) }, row, col_start, col_end, generic_data }),
        },
        other => Some(BaseExpr { data: other, row, col_start, col_end, generic_data }),
    }
}

proof fn lemma_uniq_block_prefix(s: Seq<BaseExprView<Type>>, st: UState, k: int)
    requires
        0 <= k <= s.len(),
        uniq_block(s.subrange(0, k), st) is None,
    ensures
        uniq_block(s, st) is None,
    decreases s.len() - k,
{
    if k < s.len() {
        assert(s.drop_last().subrange(0, k) =~= s.subrange(0, k));
        lemma_uniq_block_prefix(s.drop_last(), st, k);
    } else {
        assert(s.subrange(0, k) =~= s);
    }
}

fn uniq_block_exec(v: Vec<BaseExpr<Type>>, st: &mut UniqState) -> (r: Option<Vec<BaseExpr<Type>>>)
    requires
        ustate_wf(*old(st)),
    ensures
        match uniq_block(bases_view(v@), ustate_view(*old(st))) {
            None => r is None,
            Some((s2, st2)) => r matches Some(y) && bases_view(y@) == s2 && ustate_view(*final(st)) == st2 && ustate_wf(*final(st))
                && final(st).scopes@.len() == old(st).scopes@.len(),
        },
    decreases stmts_size(bases_view(v@)), 0nat,
{
    let ghost s = v@;
    let ghost sv = bases_view(s);
    let ghost st0 = ustate_view(*st);
    proof {
        lemma_bases_view(s);
        lemma_stmts_size(sv);
    }
    let mut rev = reversed(v);
    let mut out: Vec<BaseExpr<Type>> = Vec::new();
    assert(sv.subrange(0, 0) =~= Seq::<BaseExprView<Type>>::empty());
    assert(bases_view(out@) =~= Seq::<BaseExprView<Type>>::empty());
    while rev.len() > 0
        invariant
            s == v@,
            s.len() == sv.len(),
            sv == bases_view(s),
            rev@.len() <= s.len(),
            forall|i: int| 0 <= i < s.len() ==> #[trigger] sv[i] == base_view(s[i]),
            forall|i: int| 0 <= i < s.len() ==> stmt_size(#[trigger] sv[i]) < stmts_size(sv),
            forall|i: int| 0 <= i < rev@.len() ==> #[trigger] rev@[i] == s[s.len() - 1 - i],
            st0 == ustate_view(*old(st)),
            ustate_wf(*st),
            st.scopes@.len() == old(st).scopes@.len(),
            uniq_block(sv.subrange(0, s.len() - rev@.len()), st0) == Some((bases_view(out@), ustate_view(*st))),
        decreases rev@.len(),
    {
        let ghost k = s.len() - rev@.len();
        let b = rev.pop().unwrap();
        assert(b == s[k]);
        assert(sv.subrange(0, k + 1).drop_last() =~= sv.subrange(0, k));
        assert(sv.subrange(0, k + 1).last() == sv[k]);
        assert(stmt_size(base_view(b)) < stmts_size(sv));
        match uniq_stmt_exec(b, st) {
            None => {
                proof { lemma_uniq_block_prefix(sv, st0, k + 1); }
                return None;
            },
            Some(b2) => {
                let ghost before = out@;
                out.push(b2);
                assert(out@.drop_last() =~= before);
            },
        }
    }
    assert(sv.subrange(0, s.len() as int) =~= sv);
    Some(out)
}

proof fn lemma_uniq_params_prefix(s: Seq<Seq<char>>, st: UState, k: int)
    requires
        0 <= k <= s.len(),
        uniq_params(s.subrange(0, k), st) is None,
    ensures
        uniq_params(s, st) is None,
    decreases s.len() - k,
{
    if k < s.len() {
        assert(s.drop_last().subrange(0, k) =~= s.subrange(0, k));
        lemma_uniq_params_prefix(s.drop_last(), st, k);
    } else {
        assert(s.subrange(0, k) =~= s);
    }
}

proof fn lemma_uniq_functions_prefix(s: Seq<FunctionTypeView>, c: Map<Seq<char>, nat>, k: int)
    requires
        0 <= k <= s.len(),
        uniq_functions(s.subrange(0, k), c) is None,
    ensures
        uniq_functions(s, c) is None,
    decreases s.len() - k,
{
    if k < s.len() {
        assert(s.drop_last().subrange(0, k) =~= s.subrange(0, k));
        lemma_uniq_functions_prefix(s.drop_last(), c, k);
    } else {
        assert(s.subrange(0, k) =~= s);
    }
}

fn uniq_params_exec(ps: Vec<String>, st: &mut UniqState) -> (r: Option<Vec<String>>)
    requires
        ustate_wf(*old(st)),
    ensures
        match uniq_params(strings_view(ps@), ustate_view(*old(st))) {
            None => r is None,
            Some((p2, st2)) => r matches Some(y) && strings_view(y@) == p2 && ustate_view(*final(st)) == st2 && ustate_wf(*final(st))
                && final(st).scopes@.len() == old(st).scopes@.len(),
        },
{
    let ghost sv = strings_view(ps@);
    let ghost st0 = ustate_view(*st);
    let mut out: Vec<String> = Vec::new();
    let mut i: usize = 0;
    assert(sv.subrange(0, 0) =~= Seq::<Seq<char>>::empty());
    assert(strings_view(out@) =~= Seq::<Seq<char>>::empty());
    while i < ps.len()
        invariant
            i <= ps@.len(),
            sv == strings_view(ps@),
            st0 == ustate_view(*old(st)),
            ustate_wf(*st),
            st.scopes@.len() == old(st).scopes@.len(),
            uniq_params(sv.subrange(0, i as int), st0) == Some((strings_view(out@), ustate_view(*st))),
        decreases ps@.len() - i,
    {
        assert(sv.subrange(0, i + 1).drop_last() =~= sv.subrange(0, i as int));
        assert(sv.subrange(0, i + 1).last() == ps@[i as int]@);
        match define_exec(st, &ps[i]) {
            None => {
                proof { lemma_uniq_params_prefix(sv, st0, i + 1); }
                return None;
            },
            Some(u) => {
                let ghost before = out@;
                out.push(u);
                assert(strings_view(out@) =~= strings_view(before).push(u@));
            },
        }
        i = i + 1;
    }
    assert(sv.subrange(0, ps@.len() as int) =~= sv);
    Some(out)
}

fn uniq_function_exec(f: FunctionType, st: &mut UniqState) -> (r: Option<FunctionType>)
    requires
        assoc_is(old(st).counters@, old(st).counts@),
    ensures
        match uniq_function(fn_view(f), old(st).counts@) {
            None => r is None,
            Some((f2, c2)) => r matches Some(y) && fn_view(y) == f2 && final(st).counts@ == c2 && assoc_is(final(st).counters@, final(st).counts@),
        },
{
    let ghost fv = fn_view(f);
    let FunctionType { name, param_names, param_types, return_type, content } = f;
    let mut scopes: Vec<Vec<(String, String)>> = Vec::new();
    scopes.push(Vec::new());
    st.scopes = scopes;
    proof {
        assert(scope_view(st.scopes@[0]) =~= Seq::<(Seq<char>, Seq<char>)>::empty());
        assert(env_view(st.scopes@) =~= seq![Seq::<(Seq<char>, Seq<char>)>::empty()]);
    }
    let ps = match uniq_params_exec(param_names, st) {
        None => return None,
        Some(ps) => ps,
    };
    let c = match uniq_block_exec(content, st) {
        None => return None,
        Some(c) => c,
    };
    Some(FunctionType { name, param_names: ps, param_types, return_type, content: c })
}

fn uniq_functions_exec(fs: Vec<FunctionType>, st: &mut UniqState) -> (r: Option<Vec<FunctionType>>)
    requires
        assoc_is(old(st).counters@, old(st).counts@),
    ensures
        match uniq_functions(fns_view(fs@), old(st).counts@) {
            None => r is None,
            Some((f2, c2)) => r matches Some(y) && fns_view(y@) == f2 && final(st).counts@ == c2 && assoc_is(final(st).counters@, final(st).counts@),
        },
{
    let ghost s = fs@;
    let ghost sv = fns_view(s);
    let ghost c0 = st.counts@;
    let mut rev = reversed(fs);
    let mut out: Vec<FunctionType> = Vec::new();
    assert(sv.subrange(0, 0) =~= Seq::<FunctionTypeView>::empty());
    assert(fns_view(out@) =~= Seq::<FunctionTypeView>::empty());
    while rev.len() > 0
        invariant
            s == fs@,
            sv == fns_view(s),
            rev@.len() <= s.len(),
            forall|i: int| 0 <= i < rev@.len() ==> #[trigger] rev@[i] == s[s.len() - 1 - i],
            c0 == old(st).counts@,
            assoc_is(st.counters@, st.counts@),
            uniq_functions(sv.subrange(0, s.len() - rev@.len()), c0) == Some((fns_view(out@), st.counts@)),
        decreases rev@.len(),
    {
        let ghost k = s.len() - rev@.len();
        let f = rev.pop().unwrap();
        assert(f == s[k]);
        assert(sv.subrange(0, k + 1).drop_last() =~= sv.subrange(0, k));
        assert(sv.subrange(0, k + 1).last() == fn_view(f));
        match uniq_function_exec(f, st) {
            None => {
                proof { lemma_uniq_functions_prefix(sv, c0, k + 1); }
                return None;
            },
            Some(f2) => {
                let ghost before = out@;
                out.push(f2);
                assert(fns_view(out@) =~= fns_view(before).push(fn_view(f2)));
            },
        }
    }
    assert(sv.subrange(0, s.len() as int) =~= sv);
    Some(out)
}

/// The program with every variable renamed to a name unique in it, or an error where a
/// variable is read outside the reach of any assignment to it.
pub fn try_uniquify(program: (Vec<BaseExpr<Type>>, Vec<FunctionType>)) -> (r: Result<(Vec<BaseExpr<Type>>, Vec<FunctionType>), Error>)
    ensures
        match uniq_program(bases_view(program.0@), fns_view(program.1@)) {
            None => r matches Err(e) && e is SimpleError,
            Some((b, f)) => r matches Ok(p) && bases_view(p.0@) == b && fns_view(p.1@) == f,
        },
{
    let (bases, fs) = program;
    let mut st = UniqState { scopes: Vec::new(), counters: Vec::new(), counts: Ghost(Map::empty()) };
    assert(assoc_is(st.counters@, st.counts@));
    let fs2 = match uniq_functions_exec(fs, &mut st) {
        None => return Err(Error::SimpleError { message: String::from_str("A variable is used where it is not defined") }),
        Some(f) => f,
    };
    let mut scopes: Vec<Vec<(String, String)>> = Vec::new();
    scopes.push(Vec::new());
    st.scopes = scopes;
    proof {
        assert(scope_view(st.scopes@[0]) =~= Seq::<(Seq<char>, Seq<char>)>::empty());
        assert(env_view(st.scopes@) =~= seq![Seq::<(Seq<char>, Seq<char>)>::empty()]);
    }
    match uniq_block_exec(bases, &mut st) {
        None => Err(Error::SimpleError { message: String::from_str("A variable is used where it is not defined") }),
        Some(b2) => Ok((b2, fs2)),
    }
}

/// Renames every variable of the program to a name unique in it: the functions first,
/// each in a scope of its own that holds its parameters, then the main statements; a
/// new name is the base name followed by how many new names were made from that base
/// name before.
pub fn uniquify(program: &mut (Vec<BaseExpr<Type>>, Vec<FunctionType>))
    requires
        uniq_program(bases_view(old(program).0@), fns_view(old(program).1@)) is Some,
    ensures
        uniq_program(bases_view(old(program).0@), fns_view(old(program).1@)) == Some((bases_view(final(program).0@), fns_view(final(program).1@))),
{
    let mut taken: (Vec<BaseExpr<Type>>, Vec<FunctionType>) = (Vec::new(), Vec::new());
    core::mem::swap(program, &mut taken);
    match try_uniquify(taken) {
        Ok(p) => {
            *program = p;
        },
        Err(_) => {},
    }
}

/// Whether two statements agree but for what renaming changes: their place in the
/// source and their type.
pub open spec fn same_place(a: BaseExprView<Type>, b: BaseExprView<Type>) -> bool {
    a.row == b.row && a.col_start == b.col_start && a.col_end == b.col_end && a.generic_data == b.generic_data
}

/// Whether two function instances agree but for what renaming changes: their name,
/// parameter types, return type and number of parameters.
pub open spec fn same_signature(a: FunctionTypeView, b: FunctionTypeView) -> bool {
    a.name == b.name && a.param_types == b.param_types && a.return_type == b.return_type && a.param_names.len() == b.param_names.len()
}

proof fn lemma_uniq_block_places(s: Seq<BaseExprView<Type>>, st: UState)
    requires
        uniq_block(s, st) is Some,
    ensures
        uniq_block(s, st).unwrap().0.len() == s.len(),
        forall|i: int| 0 <= i < s.len() ==> same_place(#[trigger] uniq_block(s, st).unwrap().0[i], s[i]),
    decreases s.len(),
{
    if s.len() > 0 {
        lemma_uniq_block_places(s.drop_last(), st);
        let (s2, st1) = uniq_block(s.drop_last(), st).unwrap();
        let (b2, st2) = uniq_stmt(s.last(), st1).unwrap();
        assert(same_place(b2, s.last()));
        assert forall|i: int| 0 <= i < s.len() implies same_place(#[trigger] uniq_block(s, st).unwrap().0[i], s[i]) by {
            if i < s.len() - 1 {
                assert(s2.push(b2)[i] == s2[i]);
                assert(s.drop_last()[i] == s[i]);
            }
        }
    }
}

proof fn lemma_uniq_params_len(ps: Seq<Seq<char>>, st: UState)
    requires
        uniq_params(ps, st) is Some,
    ensures
        uniq_params(ps, st).unwrap().0.len() == ps.len(),
    decreases ps.len(),
{
    if ps.len() > 0 {
        lemma_uniq_params_len(ps.drop_last(), st);
    }
}

proof fn lemma_uniq_functions_signatures(fs: Seq<FunctionTypeView>, c: Map<Seq<char>, nat>)
    requires
        uniq_functions(fs, c) is Some,
    ensures
        uniq_functions(fs, c).unwrap().0.len() == fs.len(),
        forall|i: int| 0 <= i < fs.len() ==> same_signature(#[trigger] uniq_functions(fs, c).unwrap().0[i], fs[i]),
    decreases fs.len(),
{
    if fs.len() > 0 {
        lemma_uniq_functions_signatures(fs.drop_last(), c);
        let (f2s, c1) = uniq_functions(fs.drop_last(), c).unwrap();
        let f = fs.last();
        let st0 = UState { env: seq![seq![]], counters: c1 };
        lemma_uniq_params_len(f.param_names, st0);
        let (f2, c2) = uniq_function(f, c1).unwrap();
        assert(same_signature(f2, f));
        assert forall|i: int| 0 <= i < fs.len() implies same_signature(#[trigger] uniq_functions(fs, c).unwrap().0[i], fs[i]) by {
            if i < fs.len() - 1 {
                assert(f2s.push(f2)[i] == f2s[i]);
                assert(fs.drop_last()[i] == fs[i]);
            }
        }
    }
}

/// Renaming changes names only: the renamed program has as many statements as the
/// program, each at the same place in the source and of the same type, and as many
/// function instances, each with the same name, parameter types, return type and
/// number of parameters.
pub proof fn lemma_uniquify_keeps_shape(bases: Seq<BaseExprView<Type>>, fs: Seq<FunctionTypeView>)
    requires
        uniq_program(bases, fs) is Some,
    ensures
        uniq_program(bases, fs).unwrap().0.len() == bases.len(),
        forall|i: int| 0 <= i < bases.len() ==> same_place(#[trigger] uniq_program(bases, fs).unwrap().0[i], bases[i]),
        uniq_program(bases, fs).unwrap().1.len() == fs.len(),
        forall|i: int| 0 <= i < fs.len() ==> same_signature(#[trigger] uniq_program(bases, fs).unwrap().1[i], fs[i]),
{
    lemma_uniq_functions_signatures(fs, Map::empty());
    let (fs2, c) = uniq_functions(fs, Map::empty()).unwrap();
    lemma_uniq_block_places(bases, UState { env: seq![seq![]], counters: c });
}

/// Whether a name does not end in a decimal digit.
pub open spec fn no_trailing_digit(x: Seq<char>) -> bool {
    x.len() == 0 || !is_digit(x.last())
}

/// The new names made so far from base names that do not end in a digit: each such
/// base name followed by each count below its counter.
pub open spec fn made_names(st: UState) -> Set<Seq<char>> {
    Set::new(|u: Seq<char>| exists|b: Seq<char>, k: nat| no_trailing_digit(b) && k < count_of(st, b) && u == b + nat_digits(k))
}

/// A base name without a trailing digit and a count are found again from the new
/// name made of them.
proof fn lemma_split_name(b1: Seq<char>, k1: nat, b2: Seq<char>, k2: nat)
    requires
        no_trailing_digit(b1),
        no_trailing_digit(b2),
        b1 + nat_digits(k1) == b2 + nat_digits(k2),
    ensures
        b1 == b2,
        k1 == k2,
{
    lemma_nat_digits_shape(k1);
    lemma_nat_digits_shape(k2);
    let d1 = nat_digits(k1);
    let d2 = nat_digits(k2);
    let w = b1 + d1;
    assert(w.len() == b1.len() + d1.len());
    assert(w.len() == b2.len() + d2.len());
    if b1.len() < b2.len() {
        assert(0 <= b2.len() - 1 - b1.len() < d1.len());
        assert(b2.last() == (b2 + d2)[b2.len() - 1]);
        assert(w[b2.len() - 1] == d1[b2.len() - 1 - b1.len()]);
        assert(false);
    } else if b2.len() < b1.len() {
        assert(0 <= b1.len() - 1 - b2.len() < d2.len());
        assert(b1.last() == w[b1.len() - 1]);
        assert((b2 + d2)[b1.len() - 1] == d2[b1.len() - 1 - b2.len()]);
        assert(false);
    }
    assert(b1 =~= w.subrange(0, b1.len() as int));
    assert(b2 =~= (b2 + d2).subrange(0, b2.len() as int));
    assert(d1 =~= w.subrange(b1.len() as int, w.len() as int));
    assert(d2 =~= (b2 + d2).subrange(b2.len() as int, w.len() as int));
    lemma_nat_digits_injective(k1, k2);
}

/// A new name made for a base name that does not end in a digit is none of the names
/// made before from such base names, and it is the one name that making it adds.
pub proof fn lemma_new_name_fresh(st: UState, x: Seq<char>)
    requires
        no_trailing_digit(x),
        bind_new(st, x) is Some,
    ensures
        !made_names(st).contains(bind_new(st, x).unwrap().0),
        made_names(bind_new(st, x).unwrap().1) == made_names(st).insert(bind_new(st, x).unwrap().0),
{
    let (u, st2) = bind_new(st, x).unwrap();
    let c = count_of(st, x);
    assert(u == x + nat_digits(c));
    if made_names(st).contains(u) {
        let (b, k) = choose|b: Seq<char>, k: nat| no_trailing_digit(b) && k < count_of(st, b) && u == b + nat_digits(k);
        lemma_split_name(b, k, x, c);
        assert(false);
    }
    assert(count_of(st2, x) == c + 1);
    assert forall|b: Seq<char>| b != x implies count_of(st2, b) == count_of(st, b) by {}
    assert(made_names(st2) =~= made_names(st).insert(u)) by {
        assert forall|v: Seq<char>| made_names(st2).contains(v) implies made_names(st).insert(u).contains(v) by {
            let (b, k) = choose|b: Seq<char>, k: nat| no_trailing_digit(b) && k < count_of(st2, b) && v == b + nat_digits(k);
            if b == x && k == c {
                assert(v == u);
            } else {
                assert(k < count_of(st, b));
                assert(made_names(st).contains(v));
            }
        }
        assert forall|v: Seq<char>| made_names(st).insert(u).contains(v) implies made_names(st2).contains(v) by {
            if v == u {
                assert(no_trailing_digit(x) && c < count_of(st2, x) && v == x + nat_digits(c));
            } else {
                let (b, k) = choose|b: Seq<char>, k: nat| no_trailing_digit(b) && k < count_of(st, b) && v == b + nat_digits(k);
                assert(k < count_of(st2, b));
            }
        }
    }
}

} // verus!
