//! Register allocation by graph colouring: the variable whose neighbours already use the
//! most distinct registers is coloured next, with the lowest register none of its
//! coloured neighbours uses.
use vstd::prelude::*;
use vstd::set_lib::lemma_len_subset;
use vstd::set_lib::lemma_subset_equality;
use crate::registerallocation::interferencegraph::graph_is;
use crate::registerallocation::interferencegraph::has_edge_from;
use crate::registerallocation::interferencegraph::interference_pairs;
use crate::namesets::name_set;
use crate::registerallocation::interferencegraph::InterferenceGraph;
use crate::registerallocation::interferencegraph::node_name;
use crate::registerallocation::interferencegraph::has_node;
use crate::registerallocation::interferencegraph::adj_view;
use crate::codegenerator::alloc_view;
use crate::parser::strings_view;

verus! {

/// Whether the graph gives `y` as a neighbour of `x`.
pub open spec fn adjacent(adj: Seq<(String, Vec<String>)>, x: Seq<char>, y: Seq<char>) -> bool {
    exists|i: int| 0 <= i < adj.len() && node_name(adj[i]) == x && #[trigger] name_set(adj[i].1@).contains(y)
}

/// Whether a graph can be coloured: no name has two entries, every neighbour is a node,
/// every edge goes both ways and no node is its own neighbour.
pub open spec fn graph_well_formed(adj: Seq<(String, Vec<String>)>) -> bool {
    &&& forall|i: int, j: int| 0 <= i < adj.len() && 0 <= j < adj.len() && i != j ==> node_name(adj[i]) != node_name(adj[j])
    &&& forall|i: int, t: int| 0 <= i < adj.len() && 0 <= t < adj[i].1@.len() ==> has_node(adj, #[trigger] adj[i].1@[t]@)
    &&& forall|x: Seq<char>, y: Seq<char>| adjacent(adj, x, y) ==> adjacent(adj, y, x)
    &&& forall|x: Seq<char>| !adjacent(adj, x, x)
}

/// The registers that the variables coloured so far use among the neighbours of `u`.
pub open spec fn used_colours(adj: Seq<(String, Vec<String>)>, prefix: Seq<(String, isize)>, u: Seq<char>) -> Set<isize> {
    Set::new(|c: isize| exists|j: int| 0 <= j < prefix.len() && prefix[j].1 == c && adjacent(adj, prefix[j].0@, u))
}

/// Whether `c` is the lowest register, from 0 up, that is not in `used`.
pub open spec fn least_free(c: isize, used: Set<isize>) -> bool {
    &&& c >= 0
    &&& !used.contains(c)
    &&& forall|d: isize| 0 <= d < c ==> used.contains(d)
}

/// Whether a variable has been coloured in a prefix of the allocation.
pub open spec fn coloured_in(prefix: Seq<(String, isize)>, x: Seq<char>) -> bool {
    exists|j: int| 0 <= j < prefix.len() && prefix[j].0@ == x
}

/// Whether `r` lists, in the order they were coloured, every node of the graph once with
/// its register, where each register is the lowest one that no earlier coloured
/// neighbour uses, and each variable is, among those not yet coloured, one whose
/// neighbours use the most distinct registers, the first such in the graph's order.
pub open spec fn saturation_colouring(adj: Seq<(String, Vec<String>)>, r: Seq<(String, isize)>) -> bool {
    &&& r.len() == adj.len()
    &&& forall|j1: int, j2: int| 0 <= j1 < r.len() && 0 <= j2 < r.len() && j1 != j2 ==> r[j1].0@ != r[j2].0@
    &&& forall|j: int| 0 <= j < r.len() ==> has_node(adj, #[trigger] r[j].0@)
    &&& forall|j: int| 0 <= j < r.len() ==> least_free(#[trigger] r[j].1, used_colours(adj, r.subrange(0, j), r[j].0@))
    &&& forall|j: int, i: int| #![trigger r[j], adj[i]] 0 <= j < r.len() && 0 <= i < adj.len() && !coloured_in(r.subrange(0, j), node_name(adj[i])) ==>
        used_colours(adj, r.subrange(0, j), node_name(adj[i])).len() <= used_colours(adj, r.subrange(0, j), r[j].0@).len()
    &&& forall|j: int, i: int, i2: int| #![trigger r[j], adj[i], adj[i2]] 0 <= j < r.len() && 0 <= i < i2 < adj.len() && node_name(adj[i2]) == r[j].0@ && !coloured_in(r.subrange(0, j), node_name(adj[i])) ==>
        used_colours(adj, r.subrange(0, j), node_name(adj[i])).len() < used_colours(adj, r.subrange(0, j), r[j].0@).len()
}

fn contains_colour(v: &Vec<isize>, c: isize) -> (r: bool)
    ensures
        r == v@.contains(c),
{
    let mut i: usize = 0;
    while i < v.len()
        invariant
            i <= v@.len(),
            forall|j: int| 0 <= j < i ==> v@[j] != c,
        decreases v@.len() - i,
    {
        if v[i] == c {
            assert(v@[i as int] == c);
            return true;
        }
        i = i + 1;
    }
    false
}

fn copy_colours(v: &Vec<isize>) -> (r: Vec<isize>)
    ensures
        r@ == v@,
{
    let mut r: Vec<isize> = Vec::new();
    let mut i: usize = 0;
    while i < v.len()
        invariant
            i <= v@.len(),
            r@ == v@.subrange(0, i as int),
        decreases v@.len() - i,
    {
        r.push(v[i]);
        i = i + 1;
    }
    assert(v@.subrange(0, v@.len() as int) =~= v@);
    r
}

fn index_of(adj: &Vec<(String, Vec<String>)>, x: &String) -> (r: Option<usize>)
    ensures
        match r {
            Some(i) => i < adj@.len() && node_name(adj@[i as int]) == x@,
            None => !has_node(adj@, x@),
        },
{
    let mut i: usize = 0;
    while i < adj.len()
        invariant
            i <= adj@.len(),
            forall|j: int| 0 <= j < i ==> node_name(adj@[j]) != x@,
        decreases adj@.len() - i,
    {
        if adj[i].0 == *x {
            return Some(i);
        }
        i = i + 1;
    }
    None
}

/// The unassigned node whose neighbours use the most distinct registers, the first such.
fn most_saturated(colour: &Vec<Option<isize>>, dis: &Vec<Vec<isize>>) -> (r: Option<usize>)
    requires
        colour@.len() == dis@.len(),
    ensures
        match r {
            Some(v) => v < colour@.len() && colour@[v as int] is None
                && (forall|u: int| 0 <= u < colour@.len() && colour@[u] is None ==> dis@[u]@.len() <= dis@[v as int]@.len())
                && (forall|u: int| 0 <= u < v && colour@[u] is None ==> dis@[u]@.len() < dis@[v as int]@.len()),
            None => forall|u: int| 0 <= u < colour@.len() ==> colour@[u] is Some,
        },
{
    let mut best: Option<usize> = None;
    let mut i: usize = 0;
    while i < colour.len()
        invariant
            i <= colour@.len(),
            colour@.len() == dis@.len(),
            match best {
                Some(v) => v < i && colour@[v as int] is None
                    && (forall|u: int| 0 <= u < i && colour@[u] is None ==> dis@[u]@.len() <= dis@[v as int]@.len())
                    && (forall|u: int| 0 <= u < v && colour@[u] is None ==> dis@[u]@.len() < dis@[v as int]@.len()),
                None => forall|u: int| 0 <= u < i ==> colour@[u] is Some,
            },
        decreases colour@.len() - i,
    {
        if colour[i].is_none() {
            match best {
                None => {
                    best = Some(i);
                },
                Some(v) => {
                    if dis[i].len() > dis[v].len() {
                        best = Some(i);
                    }
                },
            }
        }
        i = i + 1;
    }
    best
}

proof fn lemma_adjacent_at(adj: Seq<(String, Vec<String>)>, v: int, y: Seq<char>)
    requires
        graph_well_formed(adj),
        0 <= v < adj.len(),
    ensures
        adjacent(adj, node_name(adj[v]), y) == name_set(adj[v].1@).contains(y),
{
    if adjacent(adj, node_name(adj[v]), y) {
        let i = choose|i: int| 0 <= i < adj.len() && node_name(adj[i]) == node_name(adj[v]) && #[trigger] name_set(adj[i].1@).contains(y);
        assert(i == v);
    }
}

proof fn lemma_used_push(adj: Seq<(String, Vec<String>)>, r: Seq<(String, isize)>, e: (String, isize), u: Seq<char>)
    ensures
        used_colours(adj, r.push(e), u) == (if adjacent(adj, e.0@, u) { used_colours(adj, r, u).insert(e.1) } else { used_colours(adj, r, u) }),
{
    let r2 = r.push(e);
    assert forall|c: isize| used_colours(adj, r2, u).contains(c) == (if adjacent(adj, e.0@, u) { used_colours(adj, r, u).insert(e.1) } else { used_colours(adj, r, u) }).contains(c) by {
        if used_colours(adj, r2, u).contains(c) {
            let j = choose|j: int| 0 <= j < r2.len() && r2[j].1 == c && adjacent(adj, r2[j].0@, u);
            if j < r.len() {
                assert(r[j] == r2[j]);
                assert(used_colours(adj, r, u).contains(c));
            }
        }
        if used_colours(adj, r, u).contains(c) {
            let j = choose|j: int| 0 <= j < r.len() && r[j].1 == c && adjacent(adj, r[j].0@, u);
            assert(r2[j] == r[j]);
            assert(used_colours(adj, r2, u).contains(c));
        }
        if adjacent(adj, e.0@, u) && c == e.1 {
            assert(r2[r.len() as int] == e);
            assert(used_colours(adj, r2, u).contains(c));
        }
    }
    assert(used_colours(adj, r.push(e), u) =~= (if adjacent(adj, e.0@, u) { used_colours(adj, r, u).insert(e.1) } else { used_colours(adj, r, u) }));
}

/// The names of the nodes of a graph.
pub open spec fn node_names(adj: Seq<(String, Vec<String>)>) -> Seq<Seq<char>> {
    adj.map_values(|e: (String, Vec<String>)| node_name(e))
}

/// The names in an allocation.
pub open spec fn allocated_names(r: Seq<(String, isize)>) -> Seq<Seq<char>> {
    r.map_values(|e: (String, isize)| e.0@)
}

proof fn lemma_fewer_coloured(adj: Seq<(String, Vec<String>)>, r: Seq<(String, isize)>, v: int)
    requires
        graph_well_formed(adj),
        0 <= v < adj.len(),
        forall|j1: int, j2: int| 0 <= j1 < r.len() && 0 <= j2 < r.len() && j1 != j2 ==> r[j1].0@ != r[j2].0@,
        forall|j: int| 0 <= j < r.len() ==> has_node(adj, #[trigger] r[j].0@),
        !coloured_in(r, node_name(adj[v])),
    ensures
        r.len() < adj.len(),
{
    let rn = allocated_names(r);
    let nn = node_names(adj);
    assert(rn.no_duplicates());
    assert(nn.no_duplicates());
    rn.unique_seq_to_set();
    nn.unique_seq_to_set();
    assert(rn.to_set().subset_of(nn.to_set().remove(node_name(adj[v])))) by {
        assert forall|x: Seq<char>| rn.to_set().contains(x) implies nn.to_set().remove(node_name(adj[v])).contains(x) by {
            let j = choose|j: int| 0 <= j < rn.len() && rn[j] == x;
            assert(has_node(adj, r[j].0@));
            let i = choose|i: int| 0 <= i < adj.len() && node_name(adj[i]) == x;
            assert(nn[i] == x);
            if x == node_name(adj[v]) {
                assert(coloured_in(r, node_name(adj[v])));
            }
        }
    }
    assert(nn.to_set().contains(node_name(adj[v]))) by {
        assert(nn[v] == node_name(adj[v]));
    }
    vstd::seq_lib::seq_to_set_is_finite(nn);
    lemma_len_subset(rn.to_set(), nn.to_set().remove(node_name(adj[v])));
}

proof fn lemma_all_coloured(adj: Seq<(String, Vec<String>)>, r: Seq<(String, isize)>)
    requires
        graph_well_formed(adj),
        forall|j1: int, j2: int| 0 <= j1 < r.len() && 0 <= j2 < r.len() && j1 != j2 ==> r[j1].0@ != r[j2].0@,
        forall|j: int| 0 <= j < r.len() ==> has_node(adj, #[trigger] r[j].0@),
        forall|i: int| 0 <= i < adj.len() ==> coloured_in(r, node_name(#[trigger] adj[i])),
    ensures
        r.len() == adj.len(),
{
    let rn = allocated_names(r);
    let nn = node_names(adj);
    assert(rn.no_duplicates());
    assert(nn.no_duplicates());
    rn.unique_seq_to_set();
    nn.unique_seq_to_set();
    assert(rn.to_set() =~= nn.to_set()) by {
        assert forall|x: Seq<char>| rn.to_set().contains(x) implies nn.to_set().contains(x) by {
            let j = choose|j: int| 0 <= j < rn.len() && rn[j] == x;
            assert(has_node(adj, r[j].0@));
            let i = choose|i: int| 0 <= i < adj.len() && node_name(adj[i]) == x;
            assert(nn[i] == x);
        }
        assert forall|x: Seq<char>| nn.to_set().contains(x) implies rn.to_set().contains(x) by {
            let i = choose|i: int| 0 <= i < nn.len() && nn[i] == x;
            assert(coloured_in(r, node_name(adj[i])));
            let j = choose|j: int| 0 <= j < r.len() && r[j].0@ == node_name(adj[i]);
            assert(rn[j] == x);
        }
    }
}

/// A register for every variable of the interference graph, in the order the variables
/// were coloured: next comes the uncoloured variable whose coloured neighbours use the
/// most distinct registers (the first such in the graph's order), and it gets the lowest
/// register, from 0 up, that none of them uses. The parameter positions are not used.
pub fn allocate_registers(interference_graph: &InterferenceGraph, function_args: &Vec<(String, usize)>) -> (r: Vec<(String, isize)>)
    requires
        graph_well_formed(interference_graph.adjacency_list@),
        interference_graph.adjacency_list@.len() <= isize::MAX,
    ensures
        saturation_colouring(interference_graph.adjacency_list@, r@),
{
    let adj = &interference_graph.adjacency_list;
    let n = adj.len();
    // the neighbours of each node, by position
    let mut nb: Vec<Vec<usize>> = Vec::new();
    let mut v: usize = 0;
    while v < n
        invariant
            n == adj@.len(),
            graph_well_formed(adj@),
            v <= n,
            nb@.len() == v,
            forall|w: int| 0 <= w < v ==> (#[trigger] nb@[w])@.len() == adj@[w].1@.len(),
            forall|w: int, t: int| 0 <= w < v && 0 <= t < nb@[w]@.len() ==> #[trigger] nb@[w]@[t] < n && node_name(adj@[nb@[w]@[t] as int]) == adj@[w].1@[t]@,
        decreases n - v,
    {
        let mut row: Vec<usize> = Vec::new();
        let mut t: usize = 0;
        while t < adj[v].1.len()
            invariant
                n == adj@.len(),
                graph_well_formed(adj@),
                v < n,
                t <= adj@[v as int].1@.len(),
                row@.len() == t,
                forall|t2: int| 0 <= t2 < t ==> #[trigger] row@[t2] < n && node_name(adj@[row@[t2] as int]) == adj@[v as int].1@[t2]@,
            decreases adj@[v as int].1@.len() - t,
        {
            assert(has_node(adj@, adj@[v as int].1@[t as int]@));
            match index_of(adj, &adj[v].1[t]) {
                Some(u) => {
                    row.push(u);
                },
                None => {
                    proof {
                        assert(false);
                    }
                },
            }
            t = t + 1;
        }
        nb.push(row);
        v = v + 1;
    }
    let mut colour: Vec<Option<isize>> = Vec::new();
    let mut dis: Vec<Vec<isize>> = Vec::new();
    let mut w: usize = 0;
    while w < n
        invariant
            w <= n,
            colour@.len() == w,
            dis@.len() == w,
            forall|u: int| 0 <= u < w ==> colour@[u] is None,
            forall|u: int| 0 <= u < w ==> (#[trigger] dis@[u])@ == Seq::<isize>::empty(),
        decreases n - w,
    {
        colour.push(None);
        dis.push(Vec::new());
        w = w + 1;
    }
    let mut r: Vec<(String, isize)> = Vec::new();
    proof {
        assert forall|u: int| 0 <= u < n implies (#[trigger] dis@[u])@.no_duplicates() && dis@[u]@.to_set() == used_colours(adj@, r@, node_name(adj@[u])) by {
            assert(dis@[u]@.to_set() =~= used_colours(adj@, r@, node_name(adj@[u])));
        }
    }
    let mut next = most_saturated(&colour, &dis);
    while next.is_some()
        invariant
            n == adj@.len(),
            n <= isize::MAX,
            graph_well_formed(adj@),
            nb@.len() == n,
            forall|w: int| 0 <= w < n ==> (#[trigger] nb@[w])@.len() == adj@[w].1@.len(),
            forall|w: int, t: int| 0 <= w < n && 0 <= t < nb@[w]@.len() ==> #[trigger] nb@[w]@[t] < n && node_name(adj@[nb@[w]@[t] as int]) == adj@[w].1@[t]@,
            colour@.len() == n,
            dis@.len() == n,
            match next {
                Some(v) => v < colour@.len() && colour@[v as int] is None
                    && (forall|u: int| 0 <= u < colour@.len() && colour@[u] is None ==> dis@[u]@.len() <= dis@[v as int]@.len())
                    && (forall|u: int| 0 <= u < v && colour@[u] is None ==> dis@[u]@.len() < dis@[v as int]@.len()),
                None => forall|u: int| 0 <= u < colour@.len() ==> colour@[u] is Some,
            },
            forall|j1: int, j2: int| 0 <= j1 < r@.len() && 0 <= j2 < r@.len() && j1 != j2 ==> r@[j1].0@ != r@[j2].0@,
            forall|j: int| 0 <= j < r@.len() ==> has_node(adj@, #[trigger] r@[j].0@),
            forall|u: int, j: int| #![trigger colour@[u], r@[j]] 0 <= u < n && 0 <= j < r@.len() && r@[j].0@ == node_name(adj@[u]) ==> colour@[u] == Some(r@[j].1),
            forall|u: int| 0 <= u < n ==> ((#[trigger] colour@[u]) is Some <==> coloured_in(r@, node_name(adj@[u]))),
            forall|u: int| 0 <= u < n ==> (#[trigger] dis@[u])@.no_duplicates() && dis@[u]@.to_set() == used_colours(adj@, r@, node_name(adj@[u])),
            forall|j: int| 0 <= j < r@.len() ==> 0 <= #[trigger] r@[j].1 <= j,
            forall|j: int| 0 <= j < r@.len() ==> least_free(#[trigger] r@[j].1, used_colours(adj@, r@.subrange(0, j), r@[j].0@)),
            forall|j: int, i: int| #![trigger r@[j], adj@[i]] 0 <= j < r@.len() && 0 <= i < adj@.len() && !coloured_in(r@.subrange(0, j), node_name(adj@[i])) ==>
                used_colours(adj@, r@.subrange(0, j), node_name(adj@[i])).len() <= used_colours(adj@, r@.subrange(0, j), r@[j].0@).len(),
            forall|j: int, i: int, i2: int| #![trigger r@[j], adj@[i], adj@[i2]] 0 <= j < r@.len() && 0 <= i < i2 < adj@.len() && node_name(adj@[i2]) == r@[j].0@ && !coloured_in(r@.subrange(0, j), node_name(adj@[i])) ==>
                used_colours(adj@, r@.subrange(0, j), node_name(adj@[i])).len() < used_colours(adj@, r@.subrange(0, j), r@[j].0@).len(),
        decreases n - r@.len(),
    {
        let v = next.unwrap();
        let k = r.len();
        let ghost rold = r@;
        let ghost vname = node_name(adj@[v as int]);
        let ghost dstart = dis@;
        proof {
            assert(!coloured_in(r@, vname));
            lemma_fewer_coloured(adj@, r@, v as int);
            assert forall|i: int| 0 <= i < n && !coloured_in(rold, node_name(adj@[i])) implies #[trigger] dstart[i]@.len() <= dstart[v as int]@.len() by {
                assert(colour@[i] is None);
            }
            assert forall|i: int| 0 <= i < v && !coloured_in(rold, node_name(adj@[i])) implies #[trigger] dstart[i]@.len() < dstart[v as int]@.len() by {
                assert(colour@[i] is None);
            }
        }
        // the lowest register none of the coloured neighbours uses
        let mut c: isize = 0;
        while contains_colour(&dis[v], c)
            invariant
                0 <= c <= k,
                k == rold.len(),
                k < n,
                n <= isize::MAX,
                dis@.len() == n,
                v < n,
                dis@[v as int]@.to_set() == used_colours(adj@, rold, vname),
                forall|j: int| 0 <= j < rold.len() ==> 0 <= #[trigger] rold[j].1 <= j,
                forall|d: isize| 0 <= d < c ==> used_colours(adj@, rold, vname).contains(d),
            decreases k - c,
        {
            proof {
                assert(dis@[v as int]@.to_set().contains(c));
                let j = choose|j: int| 0 <= j < rold.len() && rold[j].1 == c && adjacent(adj@, rold[j].0@, vname);
                assert(0 <= rold[j].1 <= j);
            }
            c = c + 1;
        }
        proof {
            assert(!dis@[v as int]@.to_set().contains(c));
            assert(least_free(c, used_colours(adj@, rold, vname)));
        }
        let name = adj[v].0.clone();
        r.push((name, c));
        colour.set(v, Some(c));
        let ghost dold = dis@;
        // every neighbour of v now sees c in use
        let mut t: usize = 0;
        while t < nb[v].len()
            invariant
                n == adj@.len(),
                v < n,
                nb@.len() == n,
                forall|w: int| 0 <= w < n ==> (#[trigger] nb@[w])@.len() == adj@[w].1@.len(),
                forall|w: int, t2: int| 0 <= w < n && 0 <= t2 < nb@[w]@.len() ==> #[trigger] nb@[w]@[t2] < n && node_name(adj@[nb@[w]@[t2] as int]) == adj@[w].1@[t2]@,
                t <= nb@[v as int]@.len(),
                dis@.len() == n,
                dold.len() == n,
                forall|u: int| 0 <= u < n ==> (#[trigger] dis@[u])@.no_duplicates(),
                forall|u: int| 0 <= u < n ==> (#[trigger] dis@[u])@.to_set() == (if (exists|t2: int| 0 <= t2 < t && nb@[v as int]@[t2] == u) { dold[u]@.to_set().insert(c) } else { dold[u]@.to_set() }),
            decreases nb@[v as int]@.len() - t,
        {
            let u = nb[v][t];
            let ghost before = dis@;
            if !contains_colour(&dis[u], c) {
                let mut d = copy_colours(&dis[u]);
                d.push(c);
                dis.set(u, d);
                proof {
                    before[u as int]@.lemma_push_to_set_commute(c);
                    assert(dis@[u as int]@ == before[u as int]@.push(c));
                }
            } else {
                proof {
                    assert(before[u as int]@.to_set().insert(c) =~= before[u as int]@.to_set());
                }
            }
            proof {
                assert forall|u2: int| 0 <= u2 < n implies (#[trigger] dis@[u2])@.to_set() == (if (exists|t2: int| 0 <= t2 < t + 1 && nb@[v as int]@[t2] == u2) { dold[u2]@.to_set().insert(c) } else { dold[u2]@.to_set() }) by {
                    if u2 == u as int {
                        assert(nb@[v as int]@[t as int] == u2);
                    } else {
                        assert(dis@[u2] == before[u2]);
                        if exists|t2: int| 0 <= t2 < t + 1 && nb@[v as int]@[t2] == u2 {
                            let t2 = choose|t2: int| 0 <= t2 < t + 1 && nb@[v as int]@[t2] == u2;
                            assert(t2 < t);
                        }
                    }
                }
            }
            t = t + 1;
        }
        proof {
            let e = r@.last();
            assert(r@ == rold.push(e));
            assert(e.0@ == vname);
            assert(r@.subrange(0, k as int) =~= rold);
            assert forall|u: int| 0 <= u < n implies (#[trigger] dis@[u])@.no_duplicates() && dis@[u]@.to_set() == used_colours(adj@, r@, node_name(adj@[u])) by {
                lemma_used_push(adj@, rold, e, node_name(adj@[u]));
                lemma_adjacent_at(adj@, v as int, node_name(adj@[u]));
                if exists|t2: int| 0 <= t2 < nb@[v as int]@.len() && nb@[v as int]@[t2] == u {
                    let t2 = choose|t2: int| 0 <= t2 < nb@[v as int]@.len() && nb@[v as int]@[t2] == u;
                    assert(adj@[v as int].1@[t2]@ == node_name(adj@[u]));
                    assert(name_set(adj@[v as int].1@).contains(node_name(adj@[u])));
                } else {
                    if name_set(adj@[v as int].1@).contains(node_name(adj@[u])) {
                        let t2 = choose|t2: int| 0 <= t2 < adj@[v as int].1@.len() && adj@[v as int].1@[t2]@ == node_name(adj@[u]);
                        let u2 = nb@[v as int]@[t2] as int;
                        assert(node_name(adj@[u2]) == node_name(adj@[u]));
                        assert(u2 == u);
                    }
                }
            }
            assert forall|j: int| 0 <= j < k implies r@.subrange(0, j) == rold.subrange(0, j) by {
                assert(r@.subrange(0, j) =~= rold.subrange(0, j));
            }
            assert forall|u: int| 0 <= u < n implies ((#[trigger] colour@[u]) is Some <==> coloured_in(r@, node_name(adj@[u]))) by {
                if u == v as int {
                    assert(r@[k as int].0@ == node_name(adj@[u]));
                } else {
                    if coloured_in(r@, node_name(adj@[u])) {
                        let j = choose|j: int| 0 <= j < r@.len() && r@[j].0@ == node_name(adj@[u]);
                        if j < k {
                            assert(coloured_in(rold, node_name(adj@[u])));
                        }
                    }
                    if coloured_in(rold, node_name(adj@[u])) {
                        let j = choose|j: int| 0 <= j < rold.len() && rold[j].0@ == node_name(adj@[u]);
                        assert(r@[j] == rold[j]);
                    }
                }
            }
            assert forall|j1: int, j2: int| 0 <= j1 < r@.len() && 0 <= j2 < r@.len() && j1 != j2 implies r@[j1].0@ != r@[j2].0@ by {
                if j1 == k as int && j2 < k {
                    assert(r@[j2] == rold[j2]);
                    if rold[j2].0@ == vname {
                        assert(coloured_in(rold, vname));
                    }
                }
                if j2 == k as int && j1 < k {
                    assert(r@[j1] == rold[j1]);
                    if rold[j1].0@ == vname {
                        assert(coloured_in(rold, vname));
                    }
                }
            }
            assert(has_node(adj@, vname)) by {
                assert(node_name(adj@[v as int]) == vname);
            }
            assert forall|u: int, j: int| #![trigger colour@[u], r@[j]] 0 <= u < n && 0 <= j < r@.len() && r@[j].0@ == node_name(adj@[u]) implies colour@[u] == Some(r@[j].1) by {
                if j == k as int {
                    assert(u == v as int);
                } else {
                    assert(r@[j] == rold[j]);
                    if u == v as int {
                        assert(coloured_in(rold, vname));
                    }
                }
            }
            assert forall|j: int, i: int| #![trigger r@[j], adj@[i]] 0 <= j < r@.len() && 0 <= i < adj@.len() && !coloured_in(r@.subrange(0, j), node_name(adj@[i])) implies
                used_colours(adj@, r@.subrange(0, j), node_name(adj@[i])).len() <= used_colours(adj@, r@.subrange(0, j), r@[j].0@).len() by {
                if j == k as int {
                    assert(dold[i]@.len() <= dold[v as int]@.len()) by {
                        assert(!coloured_in(rold, node_name(adj@[i])));
                        assert(dstart == dold);
                    }
                    dold[i]@.unique_seq_to_set();
                    dold[v as int]@.unique_seq_to_set();
                } else {
                    assert(r@[j] == rold[j]);
                    assert(rold.subrange(0, j) == r@.subrange(0, j));
                }
            }
            assert forall|j: int, i: int, i2: int| #![trigger r@[j], adj@[i], adj@[i2]] 0 <= j < r@.len() && 0 <= i < i2 < adj@.len() && node_name(adj@[i2]) == r@[j].0@ && !coloured_in(r@.subrange(0, j), node_name(adj@[i])) implies
                used_colours(adj@, r@.subrange(0, j), node_name(adj@[i])).len() < used_colours(adj@, r@.subrange(0, j), r@[j].0@).len() by {
                if j == k as int {
                    assert(i2 == v as int);
                    assert(dold[i]@.len() < dold[v as int]@.len()) by {
                        assert(!coloured_in(rold, node_name(adj@[i])));
                        assert(dstart == dold);
                    }
                    dold[i]@.unique_seq_to_set();
                    dold[v as int]@.unique_seq_to_set();
                } else {
                    assert(r@[j] == rold[j]);
                    assert(rold.subrange(0, j) == r@.subrange(0, j));
                }
            }
        }
        next = most_saturated(&colour, &dis);
    }
    proof {
        assert forall|i: int| 0 <= i < adj@.len() implies coloured_in(r@, node_name(#[trigger] adj@[i])) by {
            assert(colour@[i] is Some);
        }
        lemma_all_coloured(adj@, r@);
    }
    r
}

proof fn lemma_colour_bound(adj: Seq<(String, Vec<String>)>, r: Seq<(String, isize)>, j: int)
    requires
        forall|k: int| 0 <= k < r.len() ==> least_free(#[trigger] r[k].1, used_colours(adj, r.subrange(0, k), r[k].0@)),
        0 <= j < r.len(),
    ensures
        0 <= r[j].1 <= j,
    decreases j,
{
    let c = r[j].1;
    if c > j {
        let d = (c - 1) as isize;
        assert(used_colours(adj, r.subrange(0, j), r[j].0@).contains(d));
        let k = choose|k: int| 0 <= k < r.subrange(0, j).len() && r.subrange(0, j)[k].1 == d && adjacent(adj, r.subrange(0, j)[k].0@, r[j].0@);
        lemma_colour_bound(adj, r, k);
        assert(r[k] == r.subrange(0, j)[k]);
    }
}

/// What the colouring gives: every node of the graph gets a register; registers are
/// never negative, and the variable coloured in turn `j` gets a register of at most `j`;
/// and two neighbours never share a register.
pub proof fn lemma_colouring_proper(adj: Seq<(String, Vec<String>)>, r: Seq<(String, isize)>)
    requires
        graph_well_formed(adj),
        saturation_colouring(adj, r),
    ensures
        forall|i: int| 0 <= i < adj.len() ==> coloured_in(r, node_name(#[trigger] adj[i])),
        forall|j: int| 0 <= j < r.len() ==> 0 <= #[trigger] r[j].1 <= j,
        forall|j1: int, j2: int| 0 <= j1 < r.len() && 0 <= j2 < r.len() && adjacent(adj, r[j1].0@, r[j2].0@) ==> #[trigger] r[j1].1 != #[trigger] r[j2].1,
{
    assert forall|j: int| 0 <= j < r.len() implies 0 <= #[trigger] r[j].1 <= j by {
        lemma_colour_bound(adj, r, j);
    }
    assert forall|j1: int, j2: int| 0 <= j1 < r.len() && 0 <= j2 < r.len() && adjacent(adj, r[j1].0@, r[j2].0@) implies #[trigger] r[j1].1 != #[trigger] r[j2].1 by {
        if j1 == j2 {
            assert(!adjacent(adj, r[j1].0@, r[j1].0@));
        } else if j1 < j2 {
            assert(r.subrange(0, j2)[j1] == r[j1]);
            assert(used_colours(adj, r.subrange(0, j2), r[j2].0@).contains(r[j1].1));
        } else {
            assert(adjacent(adj, r[j2].0@, r[j1].0@));
            assert(r.subrange(0, j1)[j2] == r[j2]);
            assert(used_colours(adj, r.subrange(0, j1), r[j1].0@).contains(r[j2].1));
        }
    }
    let rn = allocated_names(r);
    let nn = node_names(adj);
    assert(rn.no_duplicates());
    assert(nn.no_duplicates());
    rn.unique_seq_to_set();
    nn.unique_seq_to_set();
    assert(rn.to_set().subset_of(nn.to_set())) by {
        assert forall|x: Seq<char>| rn.to_set().contains(x) implies nn.to_set().contains(x) by {
            let j = choose|j: int| 0 <= j < rn.len() && rn[j] == x;
            assert(has_node(adj, r[j].0@));
            let i = choose|i: int| 0 <= i < adj.len() && node_name(adj[i]) == x;
            assert(nn[i] == x);
        }
    }
    vstd::seq_lib::seq_to_set_is_finite(nn);
    lemma_subset_equality(rn.to_set(), nn.to_set());
    assert forall|i: int| 0 <= i < adj.len() implies coloured_in(r, node_name(#[trigger] adj[i])) by {
        assert(nn[i] == node_name(adj[i]));
        assert(nn.to_set().contains(node_name(adj[i])));
        let j = choose|j: int| 0 <= j < rn.len() && rn[j] == node_name(adj[i]);
        assert(r[j].0@ == node_name(adj[i]));
    }
}

proof fn lemma_colour_range_len(c: isize)
    requires
        c >= 0,
    ensures
        Set::new(|d: isize| 0 <= d < c).finite(),
        Set::new(|d: isize| 0 <= d < c).len() == c,
    decreases c,
{
    if c == 0 {
        assert(Set::new(|d: isize| 0 <= d < c) =~= Set::<isize>::empty());
    } else {
        lemma_colour_range_len((c - 1) as isize);
        assert(Set::new(|d: isize| 0 <= d < c - 1).insert((c - 1) as isize) =~= Set::new(|d: isize| 0 <= d < c));
    }
}

/// The neighbours of a node that are coloured in a prefix of the allocation.
spec fn coloured_neighbours(nb: Seq<String>, prefix: Seq<(String, isize)>) -> Set<Seq<char>> {
    Set::new(|x: Seq<char>| name_set(nb).contains(x) && coloured_in(prefix, x))
}

/// The register a prefix of the allocation gives a coloured name.
spec fn colour_in(prefix: Seq<(String, isize)>, x: Seq<char>) -> isize {
    prefix[choose|k: int| 0 <= k < prefix.len() && prefix[k].0@ == x].1
}

/// No variable gets a register numbered higher than its number of neighbours: the
/// colouring never needs more registers than one more than the largest degree.
pub proof fn lemma_colour_within_degree(adj: Seq<(String, Vec<String>)>, r: Seq<(String, isize)>, j: int, i: int)
    requires
        graph_well_formed(adj),
        saturation_colouring(adj, r),
        0 <= j < r.len(),
        0 <= i < adj.len(),
        node_name(adj[i]) == r[j].0@,
    ensures
        r[j].1 <= adj[i].1@.len(),
{
    let u = r[j].0@;
    let prefix = r.subrange(0, j);
    let used = used_colours(adj, prefix, u);
    let c = r[j].1;
    let nb = adj[i].1@;
    let names = nb.map_values(|s: String| s@);
    assert(name_set(nb) =~= names.to_set()) by {
        assert forall|x: Seq<char>| name_set(nb).contains(x) implies names.to_set().contains(x) by {
            let t = choose|t: int| 0 <= t < nb.len() && nb[t]@ == x;
            assert(names[t] == x);
        }
        assert forall|x: Seq<char>| names.to_set().contains(x) implies name_set(nb).contains(x) by {
            let t = choose|t: int| 0 <= t < names.len() && names[t] == x;
            assert(nb[t]@ == x);
        }
    }
    names.lemma_cardinality_of_set();
    let cn = coloured_neighbours(nb, prefix);
    assert(cn.subset_of(name_set(nb)));
    lemma_len_subset(cn, name_set(nb));
    let f = |x: Seq<char>| colour_in(prefix, x);
    let img = cn.map(f);
    vstd::set_lib::lemma_map_size_bound(cn, img, f);
    assert(used.subset_of(img)) by {
        assert forall|d: isize| used.contains(d) implies img.contains(d) by {
            let k = choose|k: int| 0 <= k < prefix.len() && prefix[k].1 == d && adjacent(adj, prefix[k].0@, u);
            let x = prefix[k].0@;
            assert(adjacent(adj, u, x));
            let i2 = choose|i2: int| 0 <= i2 < adj.len() && node_name(adj[i2]) == u && #[trigger] name_set(adj[i2].1@).contains(x);
            assert(i2 == i);
            assert(coloured_in(prefix, x));
            assert(cn.contains(x));
            let k2 = choose|k2: int| 0 <= k2 < prefix.len() && prefix[k2].0@ == x;
            assert(prefix[k2] == r[k2] && prefix[k] == r[k]);
            assert(k2 == k);
            assert(f(x) == d);
        }
    }
    lemma_len_subset(used, img);
    lemma_colour_range_len(c);
    assert(Set::new(|d: isize| 0 <= d < c).subset_of(used));
    lemma_len_subset(Set::new(|d: isize| 0 <= d < c), used);
}

/// An interference graph built from liveness can be coloured: its nodes are distinct,
/// its edges go both ways between nodes, and no variable interferes with itself.
pub proof fn lemma_interference_graph_well_formed(adj: Seq<(String, Vec<String>)>, base: Set<Seq<char>>, live: Seq<Vec<String>>, n: int)
    requires
        graph_is(adj, base, interference_pairs(live, n)),
    ensures
        graph_well_formed(adj),
{
    let e = interference_pairs(live, n);
    assert forall|i: int, t: int| 0 <= i < adj.len() && 0 <= t < adj[i].1@.len() implies has_node(adj, #[trigger] adj[i].1@[t]@) by {
        let y = adj[i].1@[t]@;
        assert(name_set(adj[i].1@).contains(y));
        assert(e.contains((node_name(adj[i]), y)));
        assert(e.contains((y, node_name(adj[i]))));
        assert(has_edge_from(e, y));
    }
    assert forall|x: Seq<char>, y: Seq<char>| adjacent(adj, x, y) implies adjacent(adj, y, x) by {
        let i = choose|i: int| 0 <= i < adj.len() && node_name(adj[i]) == x && #[trigger] name_set(adj[i].1@).contains(y);
        assert(e.contains((x, y)));
        assert(e.contains((y, x)));
        assert(has_edge_from(e, y));
        assert(has_node(adj, y));
        let i2 = choose|i2: int| 0 <= i2 < adj.len() && node_name(adj[i2]) == y;
        assert(name_set(adj[i2].1@).contains(x));
    }
    assert forall|x: Seq<char>| !adjacent(adj, x, x) by {
        if adjacent(adj, x, x) {
            let i = choose|i: int| 0 <= i < adj.len() && node_name(adj[i]) == x && #[trigger] name_set(adj[i].1@).contains(x);
            assert(e.contains((x, x)));
        }
    }
}

proof fn lemma_adjacent_views(g1: Seq<(String, Vec<String>)>, g2: Seq<(String, Vec<String>)>)
    requires
        adj_view(g1) == adj_view(g2),
    ensures
        g1.len() == g2.len(),
        forall|i: int| 0 <= i < g1.len() ==> node_name(#[trigger] g1[i]) == node_name(g2[i]),
        forall|x: Seq<char>, y: Seq<char>| #[trigger] adjacent(g1, x, y) == adjacent(g2, x, y),
{
    assert(g1.len() == adj_view(g1).len());
    assert(g2.len() == adj_view(g2).len());
    assert forall|i: int| 0 <= i < g1.len() implies node_name(#[trigger] g1[i]) == node_name(g2[i])
        && name_set(g1[i].1@) == name_set(g2[i].1@) by {
        assert(adj_view(g1)[i] == adj_view(g2)[i]);
        let v1 = g1[i].1@;
        let v2 = g2[i].1@;
        assert(strings_view(v1) == strings_view(v2));
        assert(v1.len() == strings_view(v1).len());
        assert(v2.len() == strings_view(v2).len());
        assert(name_set(v1) =~= name_set(v2)) by {
            assert forall|y: Seq<char>| name_set(v1).contains(y) implies name_set(v2).contains(y) by {
                let t = choose|t: int| 0 <= t < v1.len() && v1[t]@ == y;
                assert(strings_view(v1)[t] == v2[t]@);
            }
            assert forall|y: Seq<char>| name_set(v2).contains(y) implies name_set(v1).contains(y) by {
                let t = choose|t: int| 0 <= t < v2.len() && v2[t]@ == y;
                assert(strings_view(v2)[t] == v1[t]@);
            }
        }
    }
    assert forall|x: Seq<char>, y: Seq<char>| #[trigger] adjacent(g1, x, y) == adjacent(g2, x, y) by {
        if adjacent(g1, x, y) {
            let i = choose|i: int| 0 <= i < g1.len() && node_name(g1[i]) == x && #[trigger] name_set(g1[i].1@).contains(y);
            assert(name_set(g2[i].1@).contains(y));
        }
        if adjacent(g2, x, y) {
            let i = choose|i: int| 0 <= i < g2.len() && node_name(g2[i]) == x && #[trigger] name_set(g2[i].1@).contains(y);
            assert(name_set(g1[i].1@).contains(y));
        }
    }
}

proof fn lemma_prefix_views(g1: Seq<(String, Vec<String>)>, g2: Seq<(String, Vec<String>)>, p1: Seq<(String, isize)>, p2: Seq<(String, isize)>)
    requires
        forall|x: Seq<char>, y: Seq<char>| #[trigger] adjacent(g1, x, y) == adjacent(g2, x, y),
        alloc_view(p1) == alloc_view(p2),
    ensures
        forall|u: Seq<char>| #[trigger] used_colours(g1, p1, u) == used_colours(g2, p2, u),
        forall|x: Seq<char>| #[trigger] coloured_in(p1, x) == coloured_in(p2, x),
{
    assert(p1.len() == alloc_view(p1).len());
    assert(p2.len() == alloc_view(p2).len());
    assert forall|j: int| 0 <= j < p1.len() implies #[trigger] p1[j].0@ == p2[j].0@ && p1[j].1 == p2[j].1 by {
        assert(alloc_view(p1)[j] == alloc_view(p2)[j]);
    }
    assert forall|u: Seq<char>| #[trigger] used_colours(g1, p1, u) == used_colours(g2, p2, u) by {
        assert(used_colours(g1, p1, u) =~= used_colours(g2, p2, u)) by {
            assert forall|c: isize| used_colours(g1, p1, u).contains(c) implies used_colours(g2, p2, u).contains(c) by {
                let j = choose|j: int| 0 <= j < p1.len() && p1[j].1 == c && adjacent(g1, p1[j].0@, u);
                assert(p2[j].1 == c && adjacent(g2, p2[j].0@, u));
            }
            assert forall|c: isize| used_colours(g2, p2, u).contains(c) implies used_colours(g1, p1, u).contains(c) by {
                let j = choose|j: int| 0 <= j < p2.len() && p2[j].1 == c && adjacent(g2, p2[j].0@, u);
                assert(p1[j].0@ == p2[j].0@ && p1[j].1 == p2[j].1);
                assert(adjacent(g1, p1[j].0@, u) == adjacent(g2, p1[j].0@, u));
                assert(p1[j].1 == c && adjacent(g1, p1[j].0@, u));
            }
        }
    }
    assert forall|x: Seq<char>| #[trigger] coloured_in(p1, x) == coloured_in(p2, x) by {
        if coloured_in(p1, x) {
            let j = choose|j: int| 0 <= j < p1.len() && p1[j].0@ == x;
            assert(p2[j].0@ == x);
        }
        if coloured_in(p2, x) {
            let j = choose|j: int| 0 <= j < p2.len() && p2[j].0@ == x;
            assert(p1[j].0@ == x);
        }
    }
}

proof fn lemma_least_free_unique(c1: isize, c2: isize, used: Set<isize>)
    requires
        least_free(c1, used),
        least_free(c2, used),
    ensures
        c1 == c2,
{
    if c1 < c2 {
        assert(used.contains(c1));
    } else if c2 < c1 {
        assert(used.contains(c2));
    }
}

proof fn lemma_colouring_prefix_unique(g1: Seq<(String, Vec<String>)>, g2: Seq<(String, Vec<String>)>, r1: Seq<(String, isize)>, r2: Seq<(String, isize)>, j: int)
    requires
        adj_view(g1) == adj_view(g2),
        saturation_colouring(g1, r1),
        saturation_colouring(g2, r2),
        0 <= j <= r1.len(),
    ensures
        alloc_view(r1.subrange(0, j)) == alloc_view(r2.subrange(0, j)),
    decreases j,
{
    lemma_adjacent_views(g1, g2);
    if j == 0 {
        assert(alloc_view(r1.subrange(0, 0)) =~= alloc_view(r2.subrange(0, 0)));
    } else {
        let k = j - 1;
        lemma_colouring_prefix_unique(g1, g2, r1, r2, k);
        let p1 = r1.subrange(0, k);
        let p2 = r2.subrange(0, k);
        lemma_prefix_views(g1, g2, p1, p2);
        let x1 = r1[k].0@;
        let x2 = r2[k].0@;
        assert(has_node(g1, x1));
        assert(has_node(g2, x2));
        let i1 = choose|i: int| 0 <= i < g1.len() && node_name(g1[i]) == x1;
        let i2 = choose|i: int| 0 <= i < g2.len() && node_name(g2[i]) == x2;
        assert(!coloured_in(p1, x1)) by {
            if coloured_in(p1, x1) {
                let t = choose|t: int| 0 <= t < p1.len() && p1[t].0@ == x1;
                assert(r1[t].0@ != r1[k].0@);
            }
        }
        assert(!coloured_in(p2, x2)) by {
            if coloured_in(p2, x2) {
                let t = choose|t: int| 0 <= t < p2.len() && p2[t].0@ == x2;
                assert(r2[t].0@ != r2[k].0@);
            }
        }
        assert(node_name(g2[i1]) == x1);
        assert(node_name(g1[i2]) == x2);
        if i1 < i2 {
            assert(used_colours(g2, p2, node_name(g2[i1])).len() < used_colours(g2, p2, r2[k].0@).len());
            assert(used_colours(g1, p1, node_name(g1[i2])).len() <= used_colours(g1, p1, r1[k].0@).len());
            assert(false);
        } else if i2 < i1 {
            assert(used_colours(g1, p1, node_name(g1[i2])).len() < used_colours(g1, p1, r1[k].0@).len());
            assert(used_colours(g2, p2, node_name(g2[i1])).len() <= used_colours(g2, p2, r2[k].0@).len());
            assert(false);
        }
        assert(x1 == x2);
        assert(least_free(r1[k].1, used_colours(g1, r1.subrange(0, k), r1[k].0@)));
        assert(least_free(r2[k].1, used_colours(g2, r2.subrange(0, k), r2[k].0@)));
        lemma_least_free_unique(r1[k].1, r2[k].1, used_colours(g1, p1, x1));
        assert(alloc_view(r1.subrange(0, j)) =~= alloc_view(r2.subrange(0, j))) by {
            assert(alloc_view(r1.subrange(0, j)) =~= alloc_view(p1).push((x1, r1[k].1)));
            assert(alloc_view(r2.subrange(0, j)) =~= alloc_view(p2).push((x2, r2[k].1)));
        }
    }
}

/// The colouring is unique: two colourings of graphs with the same nodes and
/// neighbours, in the same order, colour the same variables in the same order with the
/// same registers.
pub proof fn lemma_colouring_unique(g1: Seq<(String, Vec<String>)>, g2: Seq<(String, Vec<String>)>, r1: Seq<(String, isize)>, r2: Seq<(String, isize)>)
    requires
        adj_view(g1) == adj_view(g2),
        saturation_colouring(g1, r1),
        saturation_colouring(g2, r2),
    ensures
        alloc_view(r1) == alloc_view(r2),
{
    lemma_adjacent_views(g1, g2);
    lemma_colouring_prefix_unique(g1, g2, r1, r2, r1.len() as int);
    assert(r1.subrange(0, r1.len() as int) =~= r1);
    assert(r2.subrange(0, r2.len() as int) =~= r2);
}

} // verus!
