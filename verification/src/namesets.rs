//! Sets of names, held as lists without repetitions.
use vstd::prelude::*;
use crate::parser::strings_view;

verus! {

/// The names a list holds.
pub open spec fn name_set(v: Seq<String>) -> Set<Seq<char>> {
    Set::new(|x: Seq<char>| exists|i: int| 0 <= i < v.len() && v[i]@ == x)
}

/// Whether no name occurs twice in a list.
pub open spec fn distinct_names(v: Seq<String>) -> bool {
    forall|i: int, j: int| 0 <= i < v.len() && 0 <= j < v.len() && i != j ==> v[i]@ != v[j]@
}

/// A list of names with `x` added at the end unless it holds it already.
pub open spec fn with_name(ns: Seq<Seq<char>>, x: Seq<char>) -> Seq<Seq<char>> {
    if ns.contains(x) { ns } else { ns.push(x) }
}

/// A list of names without `x`, the others in order.
pub open spec fn without_name(ns: Seq<Seq<char>>, x: Seq<char>) -> Seq<Seq<char>>
    decreases ns.len(),
{
    if ns.len() == 0 {
        ns
    } else if ns.last() == x {
        without_name(ns.drop_last(), x)
    } else {
        without_name(ns.drop_last(), x).push(ns.last())
    }
}

/// Whether a list holds a name.
pub fn contains_name(v: &Vec<String>, x: &String) -> (r: bool)
    ensures
        r == name_set(v@).contains(x@),
{
    let mut i: usize = 0;
    while i < v.len()
        invariant
            i <= v@.len(),
            forall|j: int| 0 <= j < i ==> v@[j]@ != x@,
        decreases v@.len() - i,
    {
        if v[i] == *x {
            assert(name_set(v@).contains(x@)) by {
                assert(v@[i as int]@ == x@);
            }
            return true;
        }
        i = i + 1;
    }
    false
}

/// Adds a name to a list unless it holds it already.
pub fn insert_name(v: &mut Vec<String>, x: &String)
    requires
        distinct_names(old(v)@),
    ensures
        distinct_names(final(v)@),
        name_set(final(v)@) == name_set(old(v)@).insert(x@),
        strings_view(final(v)@) == with_name(strings_view(old(v)@), x@),
{
    let ghost sv = strings_view(v@);
    assert(sv.contains(x@) == name_set(v@).contains(x@)) by {
        if sv.contains(x@) {
            let i = choose|i: int| 0 <= i < sv.len() && sv[i] == x@;
            assert(v@[i]@ == x@);
        }
        if name_set(v@).contains(x@) {
            let i = choose|i: int| 0 <= i < v@.len() && v@[i]@ == x@;
            assert(sv[i] == x@);
        }
    }
    if !contains_name(v, x) {
        let ghost before = v@;
        v.push(x.clone());
        assert(strings_view(v@) =~= sv.push(x@));
        assert(name_set(v@) =~= name_set(before).insert(x@)) by {
            assert forall|y: Seq<char>| name_set(v@).contains(y) implies name_set(before).insert(x@).contains(y) by {
                let i = choose|i: int| 0 <= i < v@.len() && v@[i]@ == y;
                if i < before.len() {
                    assert(before[i]@ == y);
                }
            }
            assert forall|y: Seq<char>| name_set(before).insert(x@).contains(y) implies name_set(v@).contains(y) by {
                if y == x@ {
                    assert(v@[before.len() as int]@ == y);
                } else {
                    let i = choose|i: int| 0 <= i < before.len() && before[i]@ == y;
                    assert(v@[i]@ == y);
                }
            }
        }
    } else {
        assert(name_set(old(v)@).insert(x@) =~= name_set(old(v)@));
    }
}

/// Removes a name from a list.
pub fn remove_name(v: &mut Vec<String>, x: &String)
    requires
        distinct_names(old(v)@),
    ensures
        distinct_names(final(v)@),
        name_set(final(v)@) == name_set(old(v)@).remove(x@),
        strings_view(final(v)@) == without_name(strings_view(old(v)@), x@),
{
    let ghost orig = v@;
    let mut out: Vec<String> = Vec::new();
    let mut i: usize = 0;
    assert(strings_view(orig).subrange(0, 0) =~= Seq::<Seq<char>>::empty());
    assert(strings_view(out@) =~= Seq::<Seq<char>>::empty());
    while i < v.len()
        invariant
            strings_view(out@) == without_name(strings_view(orig).subrange(0, i as int), x@),
            orig == v@,
            distinct_names(orig),
            i <= v@.len(),
            distinct_names(out@),
            forall|y: Seq<char>| name_set(out@).contains(y) <==> (y != x@ && exists|j: int| 0 <= j < i && orig[j]@ == y),
        decreases v@.len() - i,
    {
        if v[i] != *x {
            let ghost before = out@;
            let ghost y = v@[i as int]@;
            assert(!name_set(before).contains(y)) by {
                if name_set(before).contains(y) {
                    let j = choose|j: int| 0 <= j < i && orig[j]@ == y;
                    assert(orig[j]@ == orig[i as int]@);
                }
            }
            let ghost before_out = strings_view(out@);
            out.push(v[i].clone());
            assert(strings_view(out@) =~= before_out.push(y));
            assert forall|a: int, b: int| 0 <= a < out@.len() && 0 <= b < out@.len() && a != b implies out@[a]@ != out@[b]@ by {
                if a == before.len() as int {
                    assert(name_set(before).contains(before[b]@));
                } else if b == before.len() as int {
                    assert(name_set(before).contains(before[a]@));
                }
            }
            assert forall|z: Seq<char>| name_set(out@).contains(z) <==> (z != x@ && exists|j: int| 0 <= j < i + 1 && orig[j]@ == z) by {
                if name_set(out@).contains(z) {
                    let k = choose|k: int| 0 <= k < out@.len() && out@[k]@ == z;
                    if k < before.len() {
                        assert(name_set(before).contains(z));
                    }
                }
                if z != x@ && exists|j: int| 0 <= j < i + 1 && orig[j]@ == z {
                    let j = choose|j: int| 0 <= j < i + 1 && orig[j]@ == z;
                    if j < i {
                        assert(name_set(before).contains(z));
                        let k = choose|k: int| 0 <= k < before.len() && before[k]@ == z;
                        assert(out@[k]@ == z);
                    } else {
                        assert(out@[before.len() as int]@ == z);
                    }
                }
            }
        } else {
            assert forall|z: Seq<char>| name_set(out@).contains(z) <==> (z != x@ && exists|j: int| 0 <= j < i + 1 && orig[j]@ == z) by {
                if z != x@ && exists|j: int| 0 <= j < i + 1 && orig[j]@ == z {
                    let j = choose|j: int| 0 <= j < i + 1 && orig[j]@ == z;
                    assert(j < i);
                }
            }
        }
        proof {
            let sv = strings_view(orig);
            assert(sv.subrange(0, i + 1).drop_last() =~= sv.subrange(0, i as int));
            assert(sv.subrange(0, i + 1).last() == orig[i as int]@);
        }
        i = i + 1;
    }
    assert(strings_view(orig).subrange(0, orig.len() as int) =~= strings_view(orig));
    assert(name_set(out@) =~= name_set(orig).remove(x@));
    *v = out;
}

/// A copy of a list of names.
pub fn copy_names(v: &Vec<String>) -> (r: Vec<String>)
    ensures
        r@.len() == v@.len(),
        forall|i: int| 0 <= i < v@.len() ==> (#[trigger] r@[i])@ == v@[i]@,
        name_set(r@) == name_set(v@),
        distinct_names(v@) ==> distinct_names(r@),
        strings_view(r@) == strings_view(v@),
{
    let mut r: Vec<String> = Vec::new();
    let mut i: usize = 0;
    while i < v.len()
        invariant
            i <= v@.len(),
            r@.len() == i,
            forall|j: int| 0 <= j < i ==> (#[trigger] r@[j])@ == v@[j]@,
        decreases v@.len() - i,
    {
        r.push(v[i].clone());
        i = i + 1;
    }
    assert(name_set(r@) =~= name_set(v@)) by {
        assert forall|y: Seq<char>| name_set(r@).contains(y) implies name_set(v@).contains(y) by {
            let k = choose|k: int| 0 <= k < r@.len() && r@[k]@ == y;
            assert(v@[k]@ == y);
        }
        assert forall|y: Seq<char>| name_set(v@).contains(y) implies name_set(r@).contains(y) by {
            let k = choose|k: int| 0 <= k < v@.len() && v@[k]@ == y;
            assert(r@[k]@ == y);
        }
    }
    assert(strings_view(r@) =~= strings_view(v@));
    r
}

} // verus!
