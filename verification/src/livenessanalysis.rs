//! Which variables are live before and after each instruction, in one backward pass.
use vstd::prelude::*;
use crate::tac::TacInstruction;
use crate::tac::TacInstrView;
use crate::tac::TacValue;
use crate::tac::instrs_view;
use crate::tac::value_view;
use crate::parser::strings_view;
use crate::namesets::name_set;
use crate::namesets::distinct_names;
use crate::namesets::remove_name;
use crate::namesets::copy_names;
use crate::variablecollector::operand_names;
use crate::variablecollector::insert_operand;
use crate::variablecollector::with_operand;
use crate::namesets::without_name;
use crate::vecs::reversed;

verus! {

/// The variables among the arguments of a call.
pub open spec fn args_names(args: Seq<crate::tac::TacValueView>) -> Set<Seq<char>>
    decreases args.len(),
{
    if args.len() == 0 {
        Set::empty()
    } else {
        args_names(args.drop_last()) + operand_names(args.last())
    }
}

/// The variables live before an instruction, given those live after it: a written
/// variable stops being live and a read one becomes live. Jumps are not followed.
pub open spec fn live_before(i: TacInstrView, after: Set<Seq<char>>) -> Set<Seq<char>> {
    match i {
        TacInstrView::Assign(d, v) => after.remove(d) + operand_names(v),
        TacInstrView::BinOp(d, l, _, r) => after.remove(d) + operand_names(l) + operand_names(r),
        TacInstrView::UnaryOp(d, _, v) => after.remove(d) + operand_names(v),
        TacInstrView::If(v, _) => after + operand_names(v),
        TacInstrView::FunctionLabel(_, ps) => after - ps.to_set(),
        TacInstrView::Call(_, args, ret) => match ret {
            Some(d) => after.remove(d) + args_names(args),
            None => after + args_names(args),
        },
        TacInstrView::Return(v) => match v {
            Some(x) => after + operand_names(x),
            None => after,
        },
        _ => after,
    }
}

/// A list of names without each of `ps`.
pub open spec fn without_names(ns: Seq<Seq<char>>, ps: Seq<Seq<char>>) -> Seq<Seq<char>>
    decreases ps.len(),
{
    if ps.len() == 0 {
        ns
    } else {
        without_name(without_names(ns, ps.drop_last()), ps.last())
    }
}

/// A list of names with the variables among `args` added in turn, if they are new.
pub open spec fn with_operands(ns: Seq<Seq<char>>, args: Seq<crate::tac::TacValueView>) -> Seq<Seq<char>>
    decreases args.len(),
{
    if args.len() == 0 {
        ns
    } else {
        with_operand(with_operands(ns, args.drop_last()), args.last())
    }
}

/// The list of variables live before an instruction, from the list live after it: a
/// written variable is taken out, and each read one is added at the end if it is new.
pub open spec fn live_list_before(i: TacInstrView, after: Seq<Seq<char>>) -> Seq<Seq<char>> {
    match i {
        TacInstrView::Assign(d, v) => with_operand(without_name(after, d), v),
        TacInstrView::BinOp(d, l, _, r) => with_operand(with_operand(without_name(after, d), l), r),
        TacInstrView::UnaryOp(d, _, v) => with_operand(without_name(after, d), v),
        TacInstrView::If(v, _) => with_operand(after, v),
        TacInstrView::FunctionLabel(_, ps) => without_names(after, ps),
        TacInstrView::Call(_, args, ret) => with_operands(
            match ret {
                Some(d) => without_name(after, d),
                None => after,
            },
            args,
        ),
        TacInstrView::Return(v) => match v {
            Some(x) => with_operand(after, x),
            None => after,
        },
        _ => after,
    }
}

/// The list of variables live before position `k` of the code: none after the last
/// instruction, and before each one what `live_list_before` gives from the next.
pub open spec fn live_list_at(code: Seq<TacInstrView>, k: int) -> Seq<Seq<char>>
    decreases code.len() - k,
{
    if k < 0 || k >= code.len() {
        seq![]
    } else {
        live_list_before(code[k], live_list_at(code, k + 1))
    }
}

/// Whether `live` holds, for each position from before the first instruction to after
/// the last, the variables live there: nothing after the last instruction, and before
/// each instruction what `live_before` gives from the position after it.
pub open spec fn liveness_of(code: Seq<TacInstrView>, live: Seq<Vec<String>>) -> bool {
    &&& live.len() == code.len() + 1
    &&& name_set(live[code.len() as int]@) == Set::<Seq<char>>::empty()
    &&& forall|k: int| 0 <= k < code.len() ==> name_set(#[trigger] live[k]@) == live_before(code[k], name_set(live[k + 1]@))
    &&& forall|k: int| 0 <= k < live.len() ==> distinct_names(#[trigger] live[k]@)
}

fn live_before_exec(i: &TacInstruction, after: &Vec<String>) -> (r: Vec<String>)
    requires
        distinct_names(after@),
    ensures
        distinct_names(r@),
        name_set(r@) == live_before(i@, name_set(after@)),
        strings_view(r@) == live_list_before(i@, strings_view(after@)),
{
    let mut r = copy_names(after);
    let ghost a = name_set(after@);
    match i {
        TacInstruction::Assign(d, v) => {
            remove_name(&mut r, d);
            insert_operand(&mut r, v);
        },
        TacInstruction::BinOp(d, l, _, rt) => {
            remove_name(&mut r, d);
            insert_operand(&mut r, l);
            insert_operand(&mut r, rt);
        },
        TacInstruction::UnaryOp(d, _, v) => {
            remove_name(&mut r, d);
            insert_operand(&mut r, v);
        },
        TacInstruction::If(v, _) => {
            insert_operand(&mut r, v);
        },
        TacInstruction::FunctionLabel(_, ps) => {
            let mut k: usize = 0;
            assert(strings_view(ps@).subrange(0, 0) =~= Seq::<Seq<char>>::empty());
            while k < ps.len()
                invariant
                    k <= ps@.len(),
                    distinct_names(r@),
                    name_set(r@) == a - strings_view(ps@).subrange(0, k as int).to_set(),
                    strings_view(r@) == without_names(strings_view(after@), strings_view(ps@).subrange(0, k as int)),
                decreases ps@.len() - k,
            {
                assert(strings_view(ps@).subrange(0, k + 1).drop_last() =~= strings_view(ps@).subrange(0, k as int));
                remove_name(&mut r, &ps[k]);
                assert(strings_view(ps@).subrange(0, k + 1).to_set() =~= strings_view(ps@).subrange(0, k as int).to_set().insert(ps@[k as int]@)) by {
                    let s0 = strings_view(ps@).subrange(0, k as int);
                    let s1 = strings_view(ps@).subrange(0, k + 1);
                    assert(s1 =~= s0.push(ps@[k as int]@));
                    s0.lemma_push_to_set_commute(ps@[k as int]@);
                }
                assert(name_set(r@) =~= a - strings_view(ps@).subrange(0, k + 1).to_set());
                k = k + 1;
            }
            assert(strings_view(ps@).subrange(0, ps@.len() as int) =~= strings_view(ps@));
        },
        TacInstruction::Call(_, args, ret) => {
            match ret {
                Some(d) => {
                    remove_name(&mut r, d);
                },
                None => {},
            }
            let ghost base = name_set(r@);
            let ghost base_list = strings_view(r@);
            let ghost av = crate::tac::values_view(args@);
            let mut k: usize = 0;
            assert(base + args_names(av.subrange(0, 0)) =~= base);
            assert(av.subrange(0, 0) =~= Seq::<crate::tac::TacValueView>::empty());
            while k < args.len()
                invariant
                    k <= args@.len(),
                    av == crate::tac::values_view(args@),
                    distinct_names(r@),
                    name_set(r@) == base + args_names(av.subrange(0, k as int)),
                    strings_view(r@) == with_operands(base_list, av.subrange(0, k as int)),
                decreases args@.len() - k,
            {
                insert_operand(&mut r, &args[k]);
                assert(av.subrange(0, k + 1).drop_last() =~= av.subrange(0, k as int));
                assert(name_set(r@) =~= base + args_names(av.subrange(0, k + 1)));
                k = k + 1;
            }
            assert(av.subrange(0, args@.len() as int) =~= av);
            proof {
                match ret {
                    Some(d) => {},
                    None => { assert(a.remove(Seq::empty()) =~= a.remove(Seq::empty())); },
                }
            }
        },
        TacInstruction::Return(v) => {
            match v {
                Some(x) => {
                    insert_operand(&mut r, x);
                },
                None => {},
            }
        },
        _ => {},
    }
    r
}

/// The variable an operand names, if it names one.
pub open spec fn value_vars(v: crate::tac::TacValueView) -> Set<Seq<char>> {
    if let crate::tac::TacValueView::Variable(x) = v { Set::empty().insert(x) } else { Set::empty() }
}

/// The variables an instruction reads: its variable operands, the arguments of a call,
/// a condition and a returned value.
pub open spec fn reads(i: TacInstrView) -> Set<Seq<char>> {
    match i {
        TacInstrView::Assign(_, v) => value_vars(v),
        TacInstrView::BinOp(_, l, _, r) => value_vars(l).union(value_vars(r)),
        TacInstrView::UnaryOp(_, _, v) => value_vars(v),
        TacInstrView::If(v, _) => value_vars(v),
        TacInstrView::Call(_, args, _) => Set::new(|x: Seq<char>| exists|j: int| 0 <= j < args.len() && args[j] == crate::tac::TacValueView::Variable(x)),
        TacInstrView::Return(Some(v)) => value_vars(v),
        _ => Set::empty(),
    }
}

/// The variables an instruction writes: a destination, a call's result and a function's
/// parameters.
pub open spec fn writes(i: TacInstrView) -> Set<Seq<char>> {
    match i {
        TacInstrView::Assign(d, _) => Set::empty().insert(d),
        TacInstrView::BinOp(d, _, _, _) => Set::empty().insert(d),
        TacInstrView::UnaryOp(d, _, _) => Set::empty().insert(d),
        TacInstrView::FunctionLabel(_, ps) => ps.to_set(),
        TacInstrView::Call(_, _, Some(d)) => Set::empty().insert(d),
        _ => Set::empty(),
    }
}

proof fn lemma_args_names(args: Seq<crate::tac::TacValueView>)
    ensures
        args_names(args) == Set::new(|x: Seq<char>| exists|j: int| 0 <= j < args.len() && args[j] == crate::tac::TacValueView::Variable(x)),
    decreases args.len(),
{
    if args.len() > 0 {
        lemma_args_names(args.drop_last());
        let w = Set::new(|x: Seq<char>| exists|j: int| 0 <= j < args.len() && args[j] == crate::tac::TacValueView::Variable(x));
        assert forall|x: Seq<char>| w.contains(x) implies args_names(args).contains(x) by {
            let j = choose|j: int| 0 <= j < args.len() && args[j] == crate::tac::TacValueView::Variable(x);
            if j < args.len() - 1 {
                assert(args.drop_last()[j] == args[j]);
            }
        }
        assert forall|x: Seq<char>| args_names(args).contains(x) implies w.contains(x) by {
            if args_names(args.drop_last()).contains(x) {
                let j = choose|j: int| 0 <= j < args.drop_last().len() && args.drop_last()[j] == crate::tac::TacValueView::Variable(x);
                assert(args[j] == args.drop_last()[j]);
            } else {
                assert(args[args.len() - 1] == crate::tac::TacValueView::Variable(x));
            }
        }
        assert(args_names(args) =~= w);
    }
}

/// Liveness is the least set that the instructions need: before each instruction, every
/// variable it reads is live, and so is every variable live after it that it does not
/// write; and nothing else is live there.
pub proof fn lemma_liveness_sound(code: Seq<TacInstrView>, live: Seq<Vec<String>>, k: int)
    requires
        liveness_of(code, live),
        0 <= k < code.len(),
    ensures
        reads(code[k]).subset_of(name_set(live[k]@)),
        name_set(live[k + 1]@).difference(writes(code[k])).subset_of(name_set(live[k]@)),
        name_set(live[k]@).subset_of(reads(code[k]).union(name_set(live[k + 1]@).difference(writes(code[k])))),
{
    let i = code[k];
    let after = name_set(live[k + 1]@);
    assert(name_set(live[k]@) == live_before(i, after));
    if let TacInstrView::Call(_, args, _) = i {
        lemma_args_names(args);
    }
    assert(live_before(i, after) =~= reads(i).union(after.difference(writes(i))));
}

/// The variables live at each position of the code, from before the first instruction
/// to after the last, found in one backward pass that does not follow jumps.
pub fn analyze_liveness(instructions: &Vec<TacInstruction>) -> (r: Vec<Vec<String>>)
    ensures
        liveness_of(instrs_view(instructions@), r@),
        forall|k: int| 0 <= k < r@.len() ==> strings_view(#[trigger] r@[k]@) == live_list_at(instrs_view(instructions@), k),
{
    let n = instructions.len();
    let ghost code = instrs_view(instructions@);
    // rev[j] holds the variables live at position n - j
    let mut rev: Vec<Vec<String>> = Vec::new();
    rev.push(Vec::new());
    assert(strings_view(rev@[0]@) =~= live_list_at(code, n as int));
    assert(name_set(rev@[0]@) =~= Set::<Seq<char>>::empty());
    let mut j: usize = 0;
    while j < n
        invariant
            n == instructions@.len(),
            code == instrs_view(instructions@),
            j <= n,
            rev@.len() == j + 1,
            name_set(rev@[0]@) == Set::<Seq<char>>::empty(),
            forall|m: int| 0 <= m < rev@.len() ==> distinct_names(#[trigger] rev@[m]@),
            forall|m: int| 0 < m < rev@.len() ==> name_set(#[trigger] rev@[m]@) == live_before(code[n - m], name_set(rev@[m - 1]@)),
            forall|m: int| 0 <= m < rev@.len() ==> strings_view(#[trigger] rev@[m]@) == live_list_at(code, n - m),
        decreases n - j,
    {
        let before = live_before_exec(&instructions[n - 1 - j], &rev[j]);
        rev.push(before);
        j = j + 1;
    }
    let ghost rv = rev@;
    let out = reversed(rev);
    let mut r: Vec<Vec<String>> = out;
    assert(r@.len() == n + 1);
    assert forall|k: int| 0 <= k < n implies name_set(#[trigger] r@[k]@) == live_before(code[k], name_set(r@[k + 1]@)) by {
        assert(r@[k] == rv[n - k]);
        assert(r@[k + 1] == rv[n - k - 1]);
    }
    assert forall|k: int| 0 <= k < r@.len() implies distinct_names(#[trigger] r@[k]@) by {
        assert(r@[k] == rv[n - k]);
    }
    assert(r@[n as int] == rv[0]);
    assert forall|k: int| 0 <= k < r@.len() implies strings_view(#[trigger] r@[k]@) == live_list_at(code, k) by {
        assert(r@[k] == rv[n - k]);
    }
    r
}

} // verus!
