//! Function parameters and their positions.
use vstd::prelude::*;
use crate::tac::TacInstruction;
use crate::tac::TacInstrView;
use crate::tac::instrs_view;
use crate::parser::strings_view;

verus! {

/// The positions of parameters, where a later entry overwrites an earlier one of the
/// same name.
pub open spec fn params_into(m: Map<Seq<char>, nat>, ps: Seq<Seq<char>>) -> Map<Seq<char>, nat>
    decreases ps.len(),
{
    if ps.len() == 0 {
        m
    } else {
        params_into(m, ps.drop_last()).insert(ps.last(), (ps.len() - 1) as nat)
    }
}

/// The position of every function parameter in its function, the last function entry
/// that names a parameter deciding its position.
pub open spec fn argument_positions(s: Seq<TacInstrView>) -> Map<Seq<char>, nat>
    decreases s.len(),
{
    if s.len() == 0 {
        Map::empty()
    } else {
        let m = argument_positions(s.drop_last());
        match s.last() {
            TacInstrView::FunctionLabel(_, ps) => params_into(m, ps),
            _ => m,
        }
    }
}

/// Whether a list of pairs holds each name once and gives exactly the entries of a map.
pub open spec fn assoc_is(v: Seq<(String, usize)>, m: Map<Seq<char>, nat>) -> bool {
    &&& forall|i: int, j: int| 0 <= i < v.len() && 0 <= j < v.len() && i != j ==> v[i].0@ != v[j].0@
    &&& forall|k: Seq<char>| m.contains_key(k) <==> exists|i: int| 0 <= i < v.len() && v[i].0@ == k
    &&& forall|i: int| 0 <= i < v.len() ==> m[#[trigger] v[i].0@] == v[i].1
}

/// Sets the entry of a name, adding it when it is missing.
pub(crate) fn assoc_set(v: &mut Vec<(String, usize)>, key: &String, val: usize, Ghost(m): Ghost<Map<Seq<char>, nat>>)
    requires
        assoc_is(old(v)@, m),
    ensures
        assoc_is(final(v)@, m.insert(key@, val as nat)),
{
    let mut i: usize = 0;
    while i < v.len()
        invariant
            i <= v@.len(),
            assoc_is(v@, m),
            forall|j: int| 0 <= j < i ==> v@[j].0@ != key@,
        decreases v@.len() - i,
    {
        if v[i].0 == *key {
            let name = v[i].0.clone();
            let ghost before = v@;
            v.set(i, (name, val));
            assert forall|k: Seq<char>| m.insert(key@, val as nat).contains_key(k) <==> exists|j: int| 0 <= j < v@.len() && v@[j].0@ == k by {
                if m.insert(key@, val as nat).contains_key(k) && k != key@ {
                    let j = choose|j: int| 0 <= j < before.len() && before[j].0@ == k;
                    assert(v@[j].0@ == k);
                }
                if k == key@ {
                    assert(v@[i as int].0@ == k);
                }
                if exists|j: int| 0 <= j < v@.len() && v@[j].0@ == k {
                    let j = choose|j: int| 0 <= j < v@.len() && v@[j].0@ == k;
                    assert(before[j].0@ == k);
                }
            }
            return;
        }
        i = i + 1;
    }
    let ghost before = v@;
    v.push((key.clone(), val));
    assert forall|k: Seq<char>| m.insert(key@, val as nat).contains_key(k) <==> exists|j: int| 0 <= j < v@.len() && v@[j].0@ == k by {
        if m.insert(key@, val as nat).contains_key(k) && k != key@ {
            let j = choose|j: int| 0 <= j < before.len() && before[j].0@ == k;
            assert(v@[j].0@ == k);
        }
        if k == key@ {
            assert(v@[before.len() as int].0@ == k);
        }
        if exists|j: int| 0 <= j < v@.len() && v@[j].0@ == k {
            let j = choose|j: int| 0 <= j < v@.len() && v@[j].0@ == k;
            if j < before.len() {
                assert(before[j].0@ == k);
            }
        }
    }
}

/// Each function parameter with its position among its function's parameters, each name
/// once; where two functions share a parameter name, the later function's position
/// counts.
pub fn get_function_arguments(instructions: &Vec<TacInstruction>) -> (r: Vec<(String, usize)>)
    ensures
        assoc_is(r@, argument_positions(instrs_view(instructions@))),
{
    let mut r: Vec<(String, usize)> = Vec::new();
    let mut i: usize = 0;
    while i < instructions.len()
        invariant
            i <= instructions@.len(),
            assoc_is(r@, argument_positions(instrs_view(instructions@.subrange(0, i as int)))),
        decreases instructions@.len() - i,
    {
        let ghost pre = instrs_view(instructions@.subrange(0, i as int));
        let ghost now = instrs_view(instructions@.subrange(0, i + 1));
        assert(now.drop_last() =~= pre);
        assert(now.last() == instrs_view(instructions@)[i as int]);
        if let TacInstruction::FunctionLabel(_, ps) = &instructions[i] {
            let ghost m = argument_positions(pre);
            let ghost sps = strings_view(ps@);
            let mut k: usize = 0;
            while k < ps.len()
                invariant
                    k <= ps@.len(),
                    sps == strings_view(ps@),
                    assoc_is(r@, params_into(m, sps.subrange(0, k as int))),
                decreases ps@.len() - k,
            {
                assert(sps.subrange(0, k + 1).drop_last() =~= sps.subrange(0, k as int));
                assoc_set(&mut r, &ps[k], k, Ghost(params_into(m, sps.subrange(0, k as int))));
                k = k + 1;
            }
            assert(sps.subrange(0, ps@.len() as int) =~= sps);
        }
        i = i + 1;
    }
    assert(instructions@.subrange(0, instructions@.len() as int) =~= instructions@);
    r
}

} // verus!
