//! The variables that three-address code names.
use vstd::prelude::*;
use crate::tac::TacInstruction;
use crate::tac::TacInstrView;
use crate::tac::TacValue;
use crate::tac::TacValueView;
use crate::tac::instrs_view;
use crate::parser::strings_view;
use crate::namesets::name_set;
use crate::namesets::distinct_names;
use crate::namesets::insert_name;
use crate::namesets::with_name;

verus! {

/// The variable an operand names, if any.
pub open spec fn operand_names(v: TacValueView) -> Set<Seq<char>> {
    match v {
        TacValueView::Variable(x) => set![x],
        _ => Set::empty(),
    }
}

/// The variables one instruction names: the destination and variable operands of
/// assignments and operations, and the parameters of a function entry.
pub open spec fn instr_names(i: TacInstrView) -> Set<Seq<char>> {
    match i {
        TacInstrView::Assign(d, v) => set![d] + operand_names(v),
        TacInstrView::BinOp(d, l, _, r) => set![d] + operand_names(l) + operand_names(r),
        TacInstrView::UnaryOp(d, _, v) => set![d] + operand_names(v),
        TacInstrView::FunctionLabel(_, ps) => ps.to_set(),
        _ => Set::empty(),
    }
}

/// The variables a sequence of instructions names.
pub open spec fn code_names(s: Seq<TacInstrView>) -> Set<Seq<char>>
    decreases s.len(),
{
    if s.len() == 0 {
        Set::empty()
    } else {
        code_names(s.drop_last()) + instr_names(s.last())
    }
}

/// A list of names with the variable an operand names added, if it is new.
pub open spec fn with_operand(ns: Seq<Seq<char>>, v: TacValueView) -> Seq<Seq<char>> {
    match v {
        TacValueView::Variable(x) => with_name(ns, x),
        _ => ns,
    }
}

/// A list of names with each of `ps` added in turn, if it is new.
pub open spec fn with_names(ns: Seq<Seq<char>>, ps: Seq<Seq<char>>) -> Seq<Seq<char>>
    decreases ps.len(),
{
    if ps.len() == 0 {
        ns
    } else {
        with_name(with_names(ns, ps.drop_last()), ps.last())
    }
}

/// The list of names after one more instruction: its destination, then its variable
/// operands, or its parameters, each added at the end if it is new.
pub open spec fn collect_step(ns: Seq<Seq<char>>, i: TacInstrView) -> Seq<Seq<char>> {
    match i {
        TacInstrView::Assign(d, v) => with_operand(with_name(ns, d), v),
        TacInstrView::BinOp(d, l, _, r) => with_operand(with_operand(with_name(ns, d), l), r),
        TacInstrView::UnaryOp(d, _, v) => with_operand(with_name(ns, d), v),
        TacInstrView::FunctionLabel(_, ps) => with_names(ns, ps),
        _ => ns,
    }
}

/// The names of the variables of the code, in the order they first occur.
pub open spec fn collected(code: Seq<TacInstrView>) -> Seq<Seq<char>>
    decreases code.len(),
{
    if code.len() == 0 {
        seq![]
    } else {
        collect_step(collected(code.drop_last()), code.last())
    }
}

proof fn lemma_strings_set(v: Seq<String>)
    ensures
        strings_view(v).to_set() == name_set(v),
{
    assert(strings_view(v).to_set() =~= name_set(v)) by {
        assert forall|x: Seq<char>| strings_view(v).to_set().contains(x) implies name_set(v).contains(x) by {
            let k = choose|k: int| 0 <= k < strings_view(v).len() && strings_view(v)[k] == x;
            assert(v[k]@ == x);
        }
        assert forall|x: Seq<char>| name_set(v).contains(x) implies strings_view(v).to_set().contains(x) by {
            let k = choose|k: int| 0 <= k < v.len() && v[k]@ == x;
            assert(strings_view(v)[k] == x);
        }
    }
}

pub(crate) fn insert_operand(names: &mut Vec<String>, v: &TacValue)
    requires
        distinct_names(old(names)@),
    ensures
        distinct_names(final(names)@),
        name_set(final(names)@) == name_set(old(names)@) + operand_names(crate::tac::value_view(*v)),
        strings_view(final(names)@) == with_operand(strings_view(old(names)@), crate::tac::value_view(*v)),
{
    match v {
        TacValue::Variable(x) => {
            insert_name(names, x);
            assert(name_set(old(names)@).insert(x@) =~= name_set(old(names)@) + set![x@]);
        },
        _ => {
            assert(name_set(old(names)@) + Set::empty() =~= name_set(old(names)@));
        },
    }
}

/// Every variable that the instructions name, each once: destinations and variable
/// operands of assignments and operations, and function parameters.
pub fn collect_variable_names(tac_instructions: &Vec<TacInstruction>) -> (r: Vec<String>)
    ensures
        distinct_names(r@),
        name_set(r@) == code_names(instrs_view(tac_instructions@)),
        strings_view(r@) == collected(instrs_view(tac_instructions@)),
{
    let mut names: Vec<String> = Vec::new();
    let mut i: usize = 0;
    assert(name_set(names@) =~= Set::empty());
    while i < tac_instructions.len()
        invariant
            i <= tac_instructions@.len(),
            distinct_names(names@),
            name_set(names@) == code_names(instrs_view(tac_instructions@.subrange(0, i as int))),
            strings_view(names@) == collected(instrs_view(tac_instructions@.subrange(0, i as int))),
        decreases tac_instructions@.len() - i,
    {
        let ghost before = name_set(names@);
        let ghost before_list = strings_view(names@);
        let ghost pre = instrs_view(tac_instructions@.subrange(0, i as int));
        let ghost now = instrs_view(tac_instructions@.subrange(0, i + 1));
        assert(now.drop_last() =~= pre);
        assert(now.last() == instrs_view(tac_instructions@)[i as int]);
        match &tac_instructions[i] {
            TacInstruction::Assign(d, v) => {
                insert_name(&mut names, d);
                insert_operand(&mut names, v);
                assert(name_set(names@) =~= before + instr_names(now.last()));
            },
            TacInstruction::BinOp(d, l, _, r) => {
                insert_name(&mut names, d);
                insert_operand(&mut names, l);
                insert_operand(&mut names, r);
                assert(name_set(names@) =~= before + instr_names(now.last()));
            },
            TacInstruction::UnaryOp(d, _, v) => {
                insert_name(&mut names, d);
                insert_operand(&mut names, v);
                assert(name_set(names@) =~= before + instr_names(now.last()));
            },
            TacInstruction::FunctionLabel(_, ps) => {
                let mut k: usize = 0;
                assert(strings_view(ps@).subrange(0, 0) =~= Seq::<Seq<char>>::empty());
                while k < ps.len()
                    invariant
                        k <= ps@.len(),
                        distinct_names(names@),
                        name_set(names@) == before + name_set(ps@.subrange(0, k as int)),
                        strings_view(names@) == with_names(before_list, strings_view(ps@).subrange(0, k as int)),
                    decreases ps@.len() - k,
                {
                    assert(strings_view(ps@).subrange(0, k + 1).drop_last() =~= strings_view(ps@).subrange(0, k as int));
                    let ghost mid = name_set(names@);
                    insert_name(&mut names, &ps[k]);
                    let ghost s0 = ps@.subrange(0, k as int);
                    let ghost s1 = ps@.subrange(0, k + 1);
                    assert(name_set(s1) =~= name_set(s0).insert(ps@[k as int]@)) by {
                        assert forall|x: Seq<char>| name_set(s1).contains(x) implies name_set(s0).insert(ps@[k as int]@).contains(x) by {
                            let j = choose|j: int| 0 <= j < s1.len() && s1[j]@ == x;
                            if j < k {
                                assert(s0[j]@ == x);
                            }
                        }
                        assert forall|x: Seq<char>| name_set(s0).insert(ps@[k as int]@).contains(x) implies name_set(s1).contains(x) by {
                            if x == ps@[k as int]@ {
                                assert(s1[k as int]@ == x);
                            } else {
                                let j = choose|j: int| 0 <= j < s0.len() && s0[j]@ == x;
                                assert(s1[j]@ == x);
                            }
                        }
                    }
                    assert(name_set(names@) =~= before + name_set(ps@.subrange(0, k + 1)));
                    k = k + 1;
                }
                assert(ps@.subrange(0, ps@.len() as int) =~= ps@);
                assert(strings_view(ps@).subrange(0, ps@.len() as int) =~= strings_view(ps@));
                proof {
                    lemma_strings_set(ps@);
                }
                assert(name_set(names@) =~= before + instr_names(now.last()));
            },
            _ => {
                assert(name_set(names@) =~= before + instr_names(now.last()));
            },
        }
        i = i + 1;
    }
    assert(tac_instructions@.subrange(0, tac_instructions@.len() as int) =~= tac_instructions@);
    names
}

} // verus!
