//! The interference graph: which variables are live at the same time.
use vstd::prelude::*;
use crate::tac::TacInstruction;
use crate::namesets::name_set;
use crate::namesets::distinct_names;
use crate::namesets::insert_name;
use crate::namesets::copy_names;
use crate::namesets::with_name;
use crate::parser::strings_view;

verus! {

/// For each variable, the variables it interferes with. No two entries share a name.
pub struct InterferenceGraph {
    pub adjacency_list: Vec<(String, Vec<String>)>,
}

/// The name of an entry of an adjacency list.
pub open spec fn node_name(e: (String, Vec<String>)) -> Seq<char> {
    e.0@
}

/// Whether an adjacency list has an entry for a name.
pub open spec fn has_node(adj: Seq<(String, Vec<String>)>, x: Seq<char>) -> bool {
    exists|i: int| 0 <= i < adj.len() && node_name(adj[i]) == x
}

/// Whether a set of pairs pairs a name with some other.
pub open spec fn has_edge_from(edges: Set<(Seq<char>, Seq<char>)>, x: Seq<char>) -> bool {
    exists|y: Seq<char>| edges.contains((x, y))
}

/// Whether an adjacency list holds each name once, has a node for each name of `base`
/// and each first component of a pair of `edges`, and lists as neighbours of a node
/// exactly the names that `edges` pairs it with, each once.
pub open spec fn graph_is(adj: Seq<(String, Vec<String>)>, base: Set<Seq<char>>, edges: Set<(Seq<char>, Seq<char>)>) -> bool {
    &&& forall|i: int, j: int| 0 <= i < adj.len() && 0 <= j < adj.len() && i != j ==> node_name(adj[i]) != node_name(adj[j])
    &&& forall|x: Seq<char>| #[trigger] has_node(adj, x) <==> (base.contains(x) || has_edge_from(edges, x))
    &&& forall|i: int| 0 <= i < adj.len() ==> distinct_names(#[trigger] adj[i].1@)
    &&& forall|i: int, y: Seq<char>| #![trigger name_set(adj[i].1@).contains(y)] #![trigger edges.contains((node_name(adj[i]), y))] 0 <= i < adj.len() ==> (name_set(adj[i].1@).contains(y) <==> edges.contains((node_name(adj[i]), y)))
}

/// Whether two distinct variables are both live before one of the first `n`
/// instructions.
pub open spec fn interferes(live: Seq<Vec<String>>, n: int, a: Seq<char>, b: Seq<char>) -> bool {
    a != b && exists|i: int| 0 <= i < n && #[trigger] name_set(live[i]@).contains(a) && name_set(live[i]@).contains(b)
}

/// The pairs of variables that interfere.
pub open spec fn interference_pairs(live: Seq<Vec<String>>, n: int) -> Set<(Seq<char>, Seq<char>)> {
    Set::new(|pr: (Seq<char>, Seq<char>)| interferes(live, n, pr.0, pr.1))
}


/// The mathematical content of an adjacency list: each node's name with the names of
/// its neighbours, in order.
pub open spec fn adj_view(adj: Seq<(String, Vec<String>)>) -> Seq<(Seq<char>, Seq<Seq<char>>)> {
    adj.map_values(|e: (String, Vec<String>)| (e.0@, strings_view(e.1@)))
}

/// The first position at or after `k` of a node named `a`.
pub open spec fn find_node(g: Seq<(Seq<char>, Seq<Seq<char>>)>, a: Seq<char>, k: int) -> Option<int>
    decreases g.len() - k,
{
    if k < 0 || k >= g.len() {
        None
    } else if g[k].0 == a {
        Some(k)
    } else {
        find_node(g, a, k + 1)
    }
}

/// A graph with a node `a` added at the end, unless it has one.
pub open spec fn graph_with_node(g: Seq<(Seq<char>, Seq<Seq<char>>)>, a: Seq<char>) -> Seq<(Seq<char>, Seq<Seq<char>>)> {
    match find_node(g, a, 0) {
        Some(_) => g,
        None => g.push((a, seq![])),
    }
}

/// A graph with `b` added at the end of the neighbours of `a` unless it is one, and
/// with a node `a` added at the end if it has none.
pub open spec fn graph_with_edge(g: Seq<(Seq<char>, Seq<Seq<char>>)>, a: Seq<char>, b: Seq<char>) -> Seq<(Seq<char>, Seq<Seq<char>>)> {
    match find_node(g, a, 0) {
        Some(i) => g.update(i, (g[i].0, with_name(g[i].1, b))),
        None => g.push((a, seq![b])),
    }
}

/// A graph with a node for each of `names`, in turn.
pub open spec fn graph_with_nodes(g: Seq<(Seq<char>, Seq<Seq<char>>)>, names: Seq<Seq<char>>) -> Seq<(Seq<char>, Seq<Seq<char>>)>
    decreases names.len(),
{
    if names.len() == 0 {
        g
    } else {
        graph_with_node(graph_with_nodes(g, names.drop_last()), names.last())
    }
}

/// A graph with, for each of `ys` other than `a` in turn, the edge from `a` to it and
/// the edge back.
pub open spec fn row_edges(g: Seq<(Seq<char>, Seq<Seq<char>>)>, a: Seq<char>, ys: Seq<Seq<char>>) -> Seq<(Seq<char>, Seq<Seq<char>>)>
    decreases ys.len(),
{
    if ys.len() == 0 {
        g
    } else {
        let g1 = row_edges(g, a, ys.drop_last());
        let y = ys.last();
        if a != y { graph_with_edge(graph_with_edge(g1, a, y), y, a) } else { g1 }
    }
}

/// A graph with the rows of edges of each of `xs` in turn against all of `set`.
pub open spec fn set_edges(g: Seq<(Seq<char>, Seq<Seq<char>>)>, set: Seq<Seq<char>>, xs: Seq<Seq<char>>) -> Seq<(Seq<char>, Seq<Seq<char>>)>
    decreases xs.len(),
{
    if xs.len() == 0 {
        g
    } else {
        row_edges(set_edges(g, set, xs.drop_last()), xs.last(), set)
    }
}

/// The graph built from the variable names and the first `i` lists of live variables:
/// first a node for each name, then, for each list, an edge each way between every two
/// distinct variables of it.
pub open spec fn graph_after(names: Seq<Seq<char>>, lives: Seq<Seq<Seq<char>>>, i: int) -> Seq<(Seq<char>, Seq<Seq<char>>)>
    decreases i,
{
    if i <= 0 {
        graph_with_nodes(seq![], names)
    } else {
        set_edges(graph_after(names, lives, i - 1), lives[i - 1], lives[i - 1])
    }
}

/// The lists of live variables, as lists of names.
pub open spec fn lives_view(live: Seq<Vec<String>>) -> Seq<Seq<Seq<char>>> {
    live.map_values(|v: Vec<String>| strings_view(v@))
}

proof fn lemma_find_node(g: Seq<(Seq<char>, Seq<Seq<char>>)>, a: Seq<char>, k: int)
    requires
        0 <= k,
    ensures
        match find_node(g, a, k) {
            Some(i) => k <= i < g.len() && g[i].0 == a && forall|j: int| k <= j < i ==> g[j].0 != a,
            None => forall|j: int| k <= j < g.len() ==> g[j].0 != a,
        },
    decreases g.len() - k,
{
    if k < g.len() && g[k].0 != a {
        lemma_find_node(g, a, k + 1);
    }
}

/// The first node named `a` is at `i`.
proof fn lemma_found_at(g: Seq<(Seq<char>, Seq<Seq<char>>)>, a: Seq<char>, i: int)
    requires
        0 <= i < g.len(),
        g[i].0 == a,
        forall|j: int| 0 <= j < i ==> g[j].0 != a,
    ensures
        find_node(g, a, 0) == Some(i),
{
    lemma_find_node(g, a, 0);
    match find_node(g, a, 0) {
        Some(m) => {
            if m < i {
            } else if m > i {
            }
        },
        None => {
            assert(g[i].0 == a);
        },
    }
}

/// No node is named `a`.
proof fn lemma_not_found(g: Seq<(Seq<char>, Seq<Seq<char>>)>, a: Seq<char>)
    requires
        forall|j: int| 0 <= j < g.len() ==> g[j].0 != a,
    ensures
        find_node(g, a, 0) is None,
{
    lemma_find_node(g, a, 0);
}

proof fn lemma_same_nodes(a1: Seq<(String, Vec<String>)>, a2: Seq<(String, Vec<String>)>)
    requires
        a1.len() == a2.len(),
        forall|j: int| 0 <= j < a1.len() ==> node_name(a1[j]) == node_name(a2[j]),
    ensures
        forall|x: Seq<char>| has_node(a1, x) == has_node(a2, x),
{
    assert forall|x: Seq<char>| has_node(a1, x) == has_node(a2, x) by {
        if has_node(a1, x) {
            let j = choose|j: int| 0 <= j < a1.len() && node_name(a1[j]) == x;
            assert(node_name(a2[j]) == x);
        }
        if has_node(a2, x) {
            let j = choose|j: int| 0 <= j < a2.len() && node_name(a2[j]) == x;
            assert(node_name(a1[j]) == x);
        }
    }
}

proof fn lemma_pushed_nodes(a1: Seq<(String, Vec<String>)>, e: (String, Vec<String>))
    ensures
        forall|x: Seq<char>| has_node(a1.push(e), x) == (has_node(a1, x) || x == node_name(e)),
{
    let a2 = a1.push(e);
    assert forall|x: Seq<char>| has_node(a2, x) == (has_node(a1, x) || x == node_name(e)) by {
        if has_node(a2, x) {
            let j = choose|j: int| 0 <= j < a2.len() && node_name(a2[j]) == x;
            if j < a1.len() {
                assert(node_name(a1[j]) == x);
            }
        }
        if has_node(a1, x) {
            let j = choose|j: int| 0 <= j < a1.len() && node_name(a1[j]) == x;
            assert(node_name(a2[j]) == x);
        }
        if x == node_name(e) {
            assert(node_name(a2[a1.len() as int]) == x);
        }
    }
}

/// Adds `b` to the neighbours of `a`, adding the node `a` when it is missing.
fn add_neighbour(adj: &mut Vec<(String, Vec<String>)>, a: &String, b: &String, Ghost(base): Ghost<Set<Seq<char>>>, Ghost(edges): Ghost<Set<(Seq<char>, Seq<char>)>>)
    requires
        graph_is(old(adj)@, base, edges),
    ensures
        graph_is(final(adj)@, base, edges.insert((a@, b@))),
        adj_view(final(adj)@) == graph_with_edge(adj_view(old(adj)@), a@, b@),
{
    let ghost e2 = edges.insert((a@, b@));
    assert forall|x: Seq<char>| has_edge_from(e2, x) == (has_edge_from(edges, x) || x == a@) by {
        if has_edge_from(e2, x) && x != a@ {
            let y = choose|y: Seq<char>| e2.contains((x, y));
            assert(edges.contains((x, y)));
        }
        if x == a@ {
            assert(e2.contains((x, b@)));
        }
        if has_edge_from(edges, x) {
            let y = choose|y: Seq<char>| edges.contains((x, y));
            assert(e2.contains((x, y)));
        }
    }
    let mut i: usize = 0;
    while i < adj.len()
        invariant
            i <= adj@.len(),
            graph_is(adj@, base, edges),
            forall|j: int| 0 <= j < i ==> node_name(adj@[j]) != a@,
            adj@ == old(adj)@,
            e2 == edges.insert((a@, b@)),
            forall|x: Seq<char>| has_edge_from(e2, x) == (has_edge_from(edges, x) || x == a@),
        decreases adj@.len() - i,
    {
        if adj[i].0 == *a {
            let ghost before = adj@;
            let mut ns = copy_names(&adj[i].1);
            insert_name(&mut ns, b);
            let name = adj[i].0.clone();
            let ghost nsv = ns@;
            assert(name@ == a@);
            adj.set(i, (name, ns));
            proof {
                let g = adj_view(before);
                assert forall|j: int| 0 <= j < i implies g[j].0 != a@ by {
                    assert(g[j].0 == node_name(before[j]));
                }
                lemma_found_at(g, a@, i as int);
                assert(adj_view(adj@) =~= g.update(i as int, (g[i as int].0, with_name(g[i as int].1, b@))));
                assert(adj@[i as int].1@ == nsv);
                assert(node_name(adj@[i as int]) == a@);
                assert(forall|j: int| 0 <= j < adj@.len() && j != i ==> adj@[j] == before[j]);
                lemma_same_nodes(before, adj@);
                assert(has_node(before, a@)) by {
                    assert(node_name(before[i as int]) == a@);
                }
                assert forall|x: Seq<char>| #[trigger] has_node(adj@, x) <==> (base.contains(x) || has_edge_from(e2, x)) by {
                    assert(has_node(before, x) <==> (base.contains(x) || has_edge_from(edges, x)));
                    assert(has_node(before, x) == has_node(adj@, x));
                    assert(has_edge_from(e2, x) == (has_edge_from(edges, x) || x == a@));
                }
                assert forall|j: int, y: Seq<char>| 0 <= j < adj@.len() implies (name_set(adj@[j].1@).contains(y) <==> e2.contains((node_name(adj@[j]), y))) by {
                    if j != i {
                        assert(adj@[j] == before[j]);
                        assert(name_set(before[j].1@).contains(y) <==> edges.contains((node_name(before[j]), y)));
                        assert(node_name(before[j]) != a@);
                    } else {
                        assert(name_set(before[j].1@).contains(y) <==> edges.contains((node_name(before[j]), y)));
                        assert(name_set(nsv) == name_set(before[j].1@).insert(b@));
                    }
                }
            }
            return;
        }
        i = i + 1;
    }
    let ghost before = adj@;
    assert(!has_node(before, a@));
    let mut ns: Vec<String> = Vec::new();
    assert(strings_view(ns@) =~= Seq::<Seq<char>>::empty());
    insert_name(&mut ns, b);
    assert(strings_view(ns@) =~= seq![b@]);
    adj.push((a.clone(), ns));
    proof {
        let g = adj_view(before);
        assert forall|j: int| 0 <= j < g.len() implies g[j].0 != a@ by {
            assert(g[j].0 == node_name(before[j]));
        }
        lemma_not_found(g, a@);
        assert(adj_view(adj@) =~= g.push((a@, seq![b@])));
        lemma_pushed_nodes(before, adj@.last());
        assert(adj@ == before.push(adj@.last()));
        assert forall|x: Seq<char>| #[trigger] has_node(adj@, x) <==> (base.contains(x) || has_edge_from(e2, x)) by {
            assert(has_node(before, x) <==> (base.contains(x) || has_edge_from(edges, x)));
        }
        assert forall|j: int, y: Seq<char>| 0 <= j < adj@.len() implies (name_set(adj@[j].1@).contains(y) <==> e2.contains((node_name(adj@[j]), y))) by {
            if j < before.len() {
                assert(adj@[j] == before[j]);
                assert(name_set(before[j].1@).contains(y) <==> edges.contains((node_name(before[j]), y)));
                assert(node_name(before[j]) != a@);
            } else {
                if edges.contains((a@, y)) {
                    assert(has_edge_from(edges, a@));
                    assert(has_node(before, a@));
                }
            }
        }
        assert forall|p: int, q: int| 0 <= p < adj@.len() && 0 <= q < adj@.len() && p != q implies node_name(adj@[p]) != node_name(adj@[q]) by {
            if p == before.len() && q < before.len() {
                assert(node_name(adj@[q]) == node_name(before[q]));
                if node_name(before[q]) == a@ {
                    assert(has_node(before, a@));
                }
            }
            if q == before.len() && p < before.len() {
                assert(node_name(adj@[p]) == node_name(before[p]));
                if node_name(before[p]) == a@ {
                    assert(has_node(before, a@));
                }
            }
        }
    }
}

/// Adds the node `a` unless the graph has it.
fn add_node(adj: &mut Vec<(String, Vec<String>)>, a: &String, Ghost(base): Ghost<Set<Seq<char>>>, Ghost(edges): Ghost<Set<(Seq<char>, Seq<char>)>>)
    requires
        graph_is(old(adj)@, base, edges),
    ensures
        graph_is(final(adj)@, base.insert(a@), edges),
        adj_view(final(adj)@) == graph_with_node(adj_view(old(adj)@), a@),
{
    let mut i: usize = 0;
    while i < adj.len()
        invariant
            i <= adj@.len(),
            graph_is(adj@, base, edges),
            forall|j: int| 0 <= j < i ==> node_name(adj@[j]) != a@,
            adj@ == old(adj)@,
        decreases adj@.len() - i,
    {
        if adj[i].0 == *a {
            proof {
                let g = adj_view(adj@);
                assert forall|j: int| 0 <= j < i implies g[j].0 != a@ by {
                    assert(g[j].0 == node_name(adj@[j]));
                }
                lemma_found_at(g, a@, i as int);
                assert(has_node(adj@, a@)) by {
                    assert(node_name(adj@[i as int]) == a@);
                }
                assert forall|x: Seq<char>| #[trigger] has_node(adj@, x) <==> (base.insert(a@).contains(x) || has_edge_from(edges, x)) by {
                    assert(has_node(adj@, x) <==> (base.contains(x) || has_edge_from(edges, x)));
                }
            }
            return;
        }
        i = i + 1;
    }
    let ghost before = adj@;
    assert(!has_node(before, a@));
    adj.push((a.clone(), Vec::new()));
    proof {
        let g = adj_view(before);
        assert forall|j: int| 0 <= j < g.len() implies g[j].0 != a@ by {
            assert(g[j].0 == node_name(before[j]));
        }
        lemma_not_found(g, a@);
        assert(strings_view(adj@.last().1@) =~= Seq::<Seq<char>>::empty());
        assert(adj_view(adj@) =~= g.push((a@, seq![])));
        lemma_pushed_nodes(before, adj@.last());
        assert(adj@ == before.push(adj@.last()));
        assert forall|x: Seq<char>| #[trigger] has_node(adj@, x) <==> (base.insert(a@).contains(x) || has_edge_from(edges, x)) by {
            assert(has_node(before, x) <==> (base.contains(x) || has_edge_from(edges, x)));
        }
        assert forall|j: int, y: Seq<char>| 0 <= j < adj@.len() implies (name_set(adj@[j].1@).contains(y) <==> edges.contains((node_name(adj@[j]), y))) by {
            if j < before.len() {
                assert(adj@[j] == before[j]);
                assert(name_set(before[j].1@).contains(y) <==> edges.contains((node_name(before[j]), y)));
            } else {
                assert(!name_set(adj@[j].1@).contains(y));
                if edges.contains((a@, y)) {
                    assert(has_edge_from(edges, a@));
                    assert(has_node(before, a@));
                }
            }
        }
        assert forall|p: int, q: int| 0 <= p < adj@.len() && 0 <= q < adj@.len() && p != q implies node_name(adj@[p]) != node_name(adj@[q]) by {
            if p == before.len() && q < before.len() {
                assert(node_name(adj@[q]) == node_name(before[q]));
                if node_name(before[q]) == a@ {
                    assert(has_node(before, a@));
                }
            }
            if q == before.len() && p < before.len() {
                assert(node_name(adj@[p]) == node_name(before[p]));
                if node_name(before[p]) == a@ {
                    assert(has_node(before, a@));
                }
            }
        }
    }
}

/// The interference graph of the code: a node for each of the given variable names and
/// for each variable that is live together with another before some instruction, and an
/// edge between two distinct variables that are both live before some instruction.
pub fn build_interference_graph(instructions: &Vec<TacInstruction>, liveness: &Vec<Vec<String>>, all_variable_names: &Vec<String>) -> (g: InterferenceGraph)
    requires
        liveness@.len() >= instructions@.len(),
    ensures
        graph_is(g.adjacency_list@, name_set(all_variable_names@), interference_pairs(liveness@, instructions@.len() as int)),
        adj_view(g.adjacency_list@) == graph_after(strings_view(all_variable_names@), lives_view(liveness@), instructions@.len() as int),
{
    let ghost nv = strings_view(all_variable_names@);
    let ghost lv = lives_view(liveness@);
    let mut adj: Vec<(String, Vec<String>)> = Vec::new();
    assert(adj_view(adj@) =~= Seq::<(Seq<char>, Seq<Seq<char>>)>::empty());
    assert(nv.subrange(0, 0) =~= Seq::<Seq<char>>::empty());
    let ghost mut base: Set<Seq<char>> = Set::empty();
    let ghost edges: Set<(Seq<char>, Seq<char>)> = Set::empty();
    let mut k: usize = 0;
    while k < all_variable_names.len()
        invariant
            k <= all_variable_names@.len(),
            base == name_set(all_variable_names@.subrange(0, k as int)),
            graph_is(adj@, base, edges),
            edges == Set::<(Seq<char>, Seq<char>)>::empty(),
            nv == strings_view(all_variable_names@),
            adj_view(adj@) == graph_with_nodes(seq![], nv.subrange(0, k as int)),
        decreases all_variable_names@.len() - k,
    {
        assert(nv.subrange(0, k + 1).drop_last() =~= nv.subrange(0, k as int));
        add_node(&mut adj, &all_variable_names[k], Ghost(base), Ghost(edges));
        proof {
            let s0 = all_variable_names@.subrange(0, k as int);
            let s1 = all_variable_names@.subrange(0, k + 1);
            assert(name_set(s1) =~= name_set(s0).insert(all_variable_names@[k as int]@)) by {
                assert forall|x: Seq<char>| name_set(s1).contains(x) implies name_set(s0).insert(all_variable_names@[k as int]@).contains(x) by {
                    let j = choose|j: int| 0 <= j < s1.len() && s1[j]@ == x;
                    if j < k {
                        assert(s0[j]@ == x);
                    }
                }
                assert forall|x: Seq<char>| name_set(s0).insert(all_variable_names@[k as int]@).contains(x) implies name_set(s1).contains(x) by {
                    if x == all_variable_names@[k as int]@ {
                        assert(s1[k as int]@ == x);
                    } else {
                        let j = choose|j: int| 0 <= j < s0.len() && s0[j]@ == x;
                        assert(s1[j]@ == x);
                    }
                }
            }
            base = name_set(s1);
        }
        k = k + 1;
    }
    assert(all_variable_names@.subrange(0, all_variable_names@.len() as int) =~= all_variable_names@);
    assert(nv.subrange(0, all_variable_names@.len() as int) =~= nv);
    let ghost live = liveness@;
    let mut i: usize = 0;
    while i < instructions.len()
        invariant
            i <= instructions@.len(),
            live == liveness@,
            liveness@.len() >= instructions@.len(),
            base == name_set(all_variable_names@),
            graph_is(adj@, base, interference_pairs(live, i as int)),
            nv == strings_view(all_variable_names@),
            lv == lives_view(liveness@),
            adj_view(adj@) == graph_after(nv, lv, i as int),
        decreases instructions@.len() - i,
    {
        let set = &liveness[i];
        let ghost sv = strings_view(set@);
        let ghost gi = graph_after(nv, lv, i as int);
        assert(lv[i as int] == sv);
        assert(sv.subrange(0, 0) =~= Seq::<Seq<char>>::empty());
        let ghost s = name_set(set@);
        let ghost e0 = interference_pairs(live, i as int);
        let ghost mut e: Set<(Seq<char>, Seq<char>)> = e0;
        let mut p: usize = 0;
        while p < set.len()
            invariant
                p <= set@.len(),
                s == name_set(set@),
                graph_is(adj@, base, e),
                forall|pr: (Seq<char>, Seq<char>)| e.contains(pr) <==> (e0.contains(pr) || (pr.0 != pr.1 && s.contains(pr.0) && s.contains(pr.1) && (name_set(set@.subrange(0, p as int)).contains(pr.0) || name_set(set@.subrange(0, p as int)).contains(pr.1)))),
                sv == strings_view(set@),
                adj_view(adj@) == set_edges(gi, sv, sv.subrange(0, p as int)),
            decreases set@.len() - p,
        {
            let mut q: usize = 0;
            let ghost ep = e;
            let ghost a = set@[p as int]@;
            let ghost gp = adj_view(adj@);
            while q < set.len()
                invariant
                    q <= set@.len(),
                    p < set@.len(),
                    a == set@[p as int]@,
                    s == name_set(set@),
                    graph_is(adj@, base, e),
                    forall|pr: (Seq<char>, Seq<char>)| e.contains(pr) <==> (ep.contains(pr) || (pr.0 != pr.1 && ((pr.0 == a && name_set(set@.subrange(0, q as int)).contains(pr.1)) || (pr.1 == a && name_set(set@.subrange(0, q as int)).contains(pr.0))))),
                    sv == strings_view(set@),
                    adj_view(adj@) == row_edges(gp, a, sv.subrange(0, q as int)),
                decreases set@.len() - q,
            {
                assert(sv.subrange(0, q + 1).drop_last() =~= sv.subrange(0, q as int));
                assert(sv.subrange(0, q + 1).last() == set@[q as int]@);
                if set[p] != set[q] {
                    add_neighbour(&mut adj, &set[p], &set[q], Ghost(base), Ghost(e));
                    add_neighbour(&mut adj, &set[q], &set[p], Ghost(base), Ghost(e.insert((set@[p as int]@, set@[q as int]@))));
                    proof {
                        e = e.insert((set@[p as int]@, set@[q as int]@)).insert((set@[q as int]@, set@[p as int]@));
                    }
                }
                proof {
                    let s0 = set@.subrange(0, q as int);
                    let s1 = set@.subrange(0, q + 1);
                    assert forall|x: Seq<char>| name_set(s1).contains(x) <==> (name_set(s0).contains(x) || x == set@[q as int]@) by {
                        if name_set(s1).contains(x) {
                            let j = choose|j: int| 0 <= j < s1.len() && s1[j]@ == x;
                            if j < q {
                                assert(s0[j]@ == x);
                            }
                        }
                        if name_set(s0).contains(x) {
                            let j = choose|j: int| 0 <= j < s0.len() && s0[j]@ == x;
                            assert(s1[j]@ == x);
                        }
                        if x == set@[q as int]@ {
                            assert(s1[q as int]@ == x);
                        }
                    }
                }
                q = q + 1;
            }
            proof {
                assert(set@.subrange(0, set@.len() as int) =~= set@);
                assert(sv.subrange(0, set@.len() as int) =~= sv);
                assert(sv.subrange(0, p + 1).drop_last() =~= sv.subrange(0, p as int));
                assert(sv.subrange(0, p + 1).last() == a);
                let s0 = set@.subrange(0, p as int);
                let s1 = set@.subrange(0, p + 1);
                assert forall|x: Seq<char>| name_set(s1).contains(x) <==> (name_set(s0).contains(x) || x == a) by {
                    if name_set(s1).contains(x) {
                        let j = choose|j: int| 0 <= j < s1.len() && s1[j]@ == x;
                        if j < p {
                            assert(s0[j]@ == x);
                        }
                    }
                    if name_set(s0).contains(x) {
                        let j = choose|j: int| 0 <= j < s0.len() && s0[j]@ == x;
                        assert(s1[j]@ == x);
                    }
                    if x == a {
                        assert(s1[p as int]@ == x);
                    }
                }
                assert(s.contains(a)) by {
                    assert(set@[p as int]@ == a);
                }
            }
            p = p + 1;
        }
        proof {
            assert(set@.subrange(0, set@.len() as int) =~= set@);
            assert(sv.subrange(0, set@.len() as int) =~= sv);
            assert(e =~= interference_pairs(live, i + 1)) by {
                assert forall|pr: (Seq<char>, Seq<char>)| e.contains(pr) <==> interference_pairs(live, i + 1).contains(pr) by {
                    if e0.contains(pr) {
                        let j = choose|j: int| 0 <= j < i && #[trigger] name_set(live[j]@).contains(pr.0) && name_set(live[j]@).contains(pr.1);
                        assert(interferes(live, i + 1, pr.0, pr.1));
                    }
                    if interference_pairs(live, i + 1).contains(pr) {
                        let j = choose|j: int| 0 <= j < i + 1 && #[trigger] name_set(live[j]@).contains(pr.0) && name_set(live[j]@).contains(pr.1);
                        if j < i {
                            assert(interferes(live, i as int, pr.0, pr.1));
                        }
                    }
                    if pr.0 != pr.1 && s.contains(pr.0) && s.contains(pr.1) {
                        assert(interferes(live, i + 1, pr.0, pr.1));
                    }
                }
            }
        }
        i = i + 1;
    }
    InterferenceGraph { adjacency_list: adj }
}

/// Interference is symmetric and irreflexive: a variable never interferes with itself,
/// and `b` is a neighbour of `a` exactly when `a` is a neighbour of `b`.
pub proof fn lemma_interference_symmetric(live: Seq<Vec<String>>, n: int, a: Seq<char>, b: Seq<char>)
    ensures
        interference_pairs(live, n).contains((a, b)) <==> interference_pairs(live, n).contains((b, a)),
        !interference_pairs(live, n).contains((a, a)),
{
}

} // verus!
