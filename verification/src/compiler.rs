//! The back end: from a typed program to x86 instructions.
use vstd::prelude::*;
use crate::tokenizer::Error;
use crate::parser::BaseExpr;
use crate::parser::bases_view;
use crate::typechecker::Type;
use crate::typechecker::FunctionType;
use crate::typechecker::fns_view;
use crate::tac::TacInstrView;
use crate::tac::TacInstruction;
use crate::codegenerator::Instruction;
use crate::codegenerator::minstrs_view;
use crate::codegenerator::InstrView;
use crate::tac::generate_tac;
use crate::tac::tac_program;
use crate::tac::instrs_view;
use crate::variablecollector::collect_variable_names;
use crate::variablecollector::code_names;
use crate::livenessanalysis::analyze_liveness;
use crate::livenessanalysis::liveness_of;
use crate::namesets::name_set;
use crate::registerallocation::variableclassifier::get_function_arguments;
use crate::registerallocation::interferencegraph::build_interference_graph;
use crate::registerallocation::interferencegraph::graph_is;
use crate::registerallocation::interferencegraph::interference_pairs;
use crate::registerallocation::registerallocator::allocate_registers;
use crate::registerallocation::registerallocator::saturation_colouring;
use crate::registerallocation::registerallocator::lemma_interference_graph_well_formed;
use crate::codegenerator::generate_code;
use crate::codegenerator::generated;
use crate::codegenerator::alloc_valid;
use crate::codegenerator::register_of;
use crate::instructionsimplifier::AssemblyInstruction;
use crate::instructionsimplifier::AsmView;
use crate::instructionsimplifier::try_to_assembly_instructions;
use crate::instructionsimplifier::lower_all;
use crate::instructionsimplifier::asms_view;
use crate::variablecollector::collected;
use crate::livenessanalysis::live_list_at;
use crate::registerallocation::interferencegraph::adj_view;
use crate::registerallocation::interferencegraph::lives_view;
use crate::registerallocation::interferencegraph::graph_after;
use crate::registerallocation::registerallocator::lemma_colouring_unique;
use crate::codegenerator::lemma_generated_views;
use crate::parser::strings_view;

verus! {

/// The lists of variables live at each position of the code, from before the first
/// instruction to after the last.
pub open spec fn live_lists(code: Seq<TacInstrView>) -> Seq<Seq<Seq<char>>> {
    Seq::new((code.len() + 1) as nat, |k: int| live_list_at(code, k))
}

/// The interference graph the back end builds for the code: a node for each variable
/// in the order they first occur, then the edges of each list of live variables.
pub open spec fn code_graph(code: Seq<TacInstrView>) -> Seq<(Seq<char>, Seq<Seq<char>>)> {
    graph_after(collected(code), live_lists(code), code.len() as int)
}

/// Whether `live` and `graph` hold the liveness lists and the interference graph that
/// the back end computes for the code.
pub open spec fn computed(code: Seq<TacInstrView>, live: Seq<Vec<String>>, graph: Seq<(String, Vec<String>)>) -> bool {
    lives_view(live) == live_lists(code) && adj_view(graph) == code_graph(code)
}

/// Whether the stages of the back end, run on three-address code `code` with the
/// liveness `live`, the interference graph `graph` and the allocation `alloc` that they
/// compute, give `lowered`: the graph has a node for every variable, every register exists,
/// and code generation and lowering succeed.
pub open spec fn back_end_gives(
    code: Seq<TacInstrView>,
    live: Seq<Vec<String>>,
    graph: Seq<(String, Vec<String>)>,
    alloc: Seq<(String, isize)>,
    lowered: Seq<AsmView>,
) -> bool {
    &&& liveness_of(code, live)
    &&& graph_is(graph, code_names(code), interference_pairs(live, code.len() as int))
    &&& graph.len() <= isize::MAX
    &&& saturation_colouring(graph, alloc)
    &&& alloc_valid(alloc)
    &&& generated(code, alloc, live) matches Some(ins) && lower_all(ins) == Some(lowered)
}

/// Whether the back end, with the liveness, graph and allocation it computes, fails
/// after three-address code: a variable needs a register beyond the eleven handed out,
/// or code generation or lowering fails.
pub open spec fn back_end_fails(
    code: Seq<TacInstrView>,
    live: Seq<Vec<String>>,
    graph: Seq<(String, Vec<String>)>,
    alloc: Seq<(String, isize)>,
) -> bool {
    &&& liveness_of(code, live)
    &&& graph_is(graph, code_names(code), interference_pairs(live, code.len() as int))
    &&& (graph.len() > isize::MAX || (saturation_colouring(graph, alloc) && (!alloc_valid(alloc)
        || generated(code, alloc, live) is None
        || (generated(code, alloc, live) matches Some(ins) && lower_all(ins) is None))))
}

fn allocation_valid(alloc: &Vec<(String, isize)>) -> (b: bool)
    ensures
        b == alloc_valid(alloc@),
{
    let mut i: usize = 0;
    while i < alloc.len()
        invariant
            i <= alloc@.len(),
            forall|j: int| 0 <= j < i ==> (#[trigger] register_of(alloc@[j].1)) is Some,
        decreases alloc@.len() - i,
    {
        let n = alloc[i].1;
        if n < -5 || n > 10 {
            assert(register_of(alloc@[i as int].1) is None);
            return false;
        }
        i = i + 1;
    }
    true
}

/// Whether the back end, run on three-address code `code` with the liveness lists `live`,
/// gives the machine instructions `ins` and their lowered forms `lowered`, with the
/// interference graph and the allocation that it computes.
pub open spec fn listing_gives(code: Seq<TacInstrView>, live: Seq<Vec<String>>, ins: Seq<InstrView>, lowered: Seq<AsmView>) -> bool {
    exists|graph: Seq<(String, Vec<String>)>, alloc: Seq<(String, isize)>|
        computed(code, live, graph) && back_end_gives(code, live, graph, alloc, lowered) && generated(code, alloc, live) == Some(ins)
}

/// Compiles a typed program to x86 instructions, as `compile` does, and also gives what
/// the stages made on the way: the three-address code, the variables live at each of its
/// positions, and the machine instructions before they were lowered to two-operand forms.
#[verifier::spinoff_prover]
#[verifier::rlimit(40)]
pub fn compile_with_listing(base_expressions: (Vec<BaseExpr<Type>>, Vec<FunctionType>)) -> (r: Result<
    (Vec<TacInstruction>, Vec<Vec<String>>, Vec<Instruction>, Vec<AssemblyInstruction>),
    Error,
>)
    ensures
        match tac_program(bases_view(base_expressions.0@), fns_view(base_expressions.1@)) {
            Err(m) => r matches Err(e) && e matches Error::SimpleError { message } && message@ == m,
            Ok(code) => match r {
                Ok(x) => instrs_view(x.0@) == code && listing_gives(code, x.1@, minstrs_view(x.2@), asms_view(x.3@)),
                Err(e) => e is SimpleError && back_end_refuses(code),
            },
        },
{
    let (program, functions) = base_expressions;
    let tac = match generate_tac(program, functions) {
        Ok(t) => t,
        Err(e) => return Err(e),
    };
    let ghost code = instrs_view(tac@);
    let names = collect_variable_names(&tac);
    let function_arguments = get_function_arguments(&tac);
    let liveness = analyze_liveness(&tac);
    let graph = build_interference_graph(&tac, &liveness, &names);
    proof {
        lemma_interference_graph_well_formed(graph.adjacency_list@, name_set(names@), liveness@, tac@.len() as int);
        assert(lives_view(liveness@) =~= live_lists(code)) by {
            assert forall|k: int| 0 <= k < liveness@.len() implies lives_view(liveness@)[k] == live_lists(code)[k] by {
                assert(strings_view(liveness@[k]@) == live_list_at(code, k));
            }
        }
        assert(computed(code, liveness@, graph.adjacency_list@));
    }
    if graph.adjacency_list.len() > isize::MAX as usize {
        proof {
            assert(back_end_fails(code, liveness@, graph.adjacency_list@, Seq::empty()));
        }
        return Err(Error::SimpleError { message: String::from_str("Too many variables") });
    }
    let allocation = allocate_registers(&graph, &function_arguments);
    if !allocation_valid(&allocation) {
        proof {
            assert(back_end_fails(code, liveness@, graph.adjacency_list@, allocation@));
        }
        return Err(Error::SimpleError { message: String::from_str("Too many variables are live at once for the registers") });
    }
    let instructions = match generate_code(&tac, &allocation, &liveness) {
        Ok(i) => i,
        Err(e) => {
            proof {
                assert(back_end_fails(code, liveness@, graph.adjacency_list@, allocation@));
            }
            return Err(e);
        },
    };
    match try_to_assembly_instructions(&instructions) {
        Ok(lowered) => {
            proof {
                assert(back_end_gives(code, liveness@, graph.adjacency_list@, allocation@, asms_view(lowered@)));
                assert(generated(code, allocation@, liveness@) == Some(minstrs_view(instructions@)));
                assert(computed(code, liveness@, graph.adjacency_list@)
                    && back_end_gives(code, liveness@, graph.adjacency_list@, allocation@, asms_view(lowered@))
                    && generated(code, allocation@, liveness@) == Some(minstrs_view(instructions@)));
            }
            Ok((tac, liveness, instructions, lowered))
        },
        Err(e) => {
            proof {
                assert(back_end_fails(code, liveness@, graph.adjacency_list@, allocation@));
            }
            Err(e)
        },
    }
}


/// Compiles a typed program to x86 instructions: three-address code, liveness, the
/// interference graph of its variables, a register for each by graph colouring, machine
/// code, and its two-operand forms. Fails where three-address code cannot be made, where
/// more than eleven registers would be needed, or where an instruction is not supported.
/// The liveness lists and the graph are those `computed` names, so by
/// `lemma_back_end_deterministic` the result is a function of the three-address code.
/// Whether the back end, run on three-address code `code` with the liveness lists and the
/// interference graph it computes and an allocation of them, gives `lowered`.
pub open spec fn back_end_succeeds(code: Seq<TacInstrView>, lowered: Seq<AsmView>) -> bool {
    exists|live: Seq<Vec<String>>, graph: Seq<(String, Vec<String>)>, alloc: Seq<(String, isize)>|
        computed(code, live, graph) && back_end_gives(code, live, graph, alloc, lowered)
}

/// Whether the back end, run on three-address code `code` with the liveness lists and the
/// interference graph it computes and an allocation of them, fails.
pub open spec fn back_end_refuses(code: Seq<TacInstrView>) -> bool {
    exists|live: Seq<Vec<String>>, graph: Seq<(String, Vec<String>)>, alloc: Seq<(String, isize)>|
        computed(code, live, graph) && back_end_fails(code, live, graph, alloc)
}

#[verifier::spinoff_prover]
#[verifier::rlimit(40)]
pub fn compile(base_expressions: (Vec<BaseExpr<Type>>, Vec<FunctionType>)) -> (r: Result<Vec<AssemblyInstruction>, Error>)
    ensures
        match tac_program(bases_view(base_expressions.0@), fns_view(base_expressions.1@)) {
            Err(m) => r matches Err(e) && e matches Error::SimpleError { message } && message@ == m,
            Ok(code) => match r {
                Ok(lowered) => back_end_succeeds(code, asms_view(lowered@)),
                Err(e) => e is SimpleError && back_end_refuses(code),
            },
        },
{
    match compile_with_listing(base_expressions) {
        Ok((tac, lv, ins, lowered)) => {
            proof {
                let code = instrs_view(tac@);
                assert(tac_program(bases_view(base_expressions.0@), fns_view(base_expressions.1@)) == Ok::<Seq<TacInstrView>, Seq<char>>(code));
                assert(listing_gives(code, lv@, minstrs_view(ins@), asms_view(lowered@)));
                let (graph, alloc) = choose|graph: Seq<(String, Vec<String>)>, alloc: Seq<(String, isize)>|
                    computed(code, lv@, graph) && back_end_gives(code, lv@, graph, alloc, asms_view(lowered@))
                        && generated(code, alloc, lv@) == Some(minstrs_view(ins@));
                assert(computed(code, lv@, graph) && back_end_gives(code, lv@, graph, alloc, asms_view(lowered@)));
                assert(back_end_succeeds(code, asms_view(lowered@)));
            }
            Ok(lowered)
        },
        Err(e) => {
            proof {
                match tac_program(bases_view(base_expressions.0@), fns_view(base_expressions.1@)) {
                    Ok(code) => {
                        assert(e is SimpleError);
                        assert(back_end_refuses(code));
                    },
                    Err(m) => {},
                }
            }
            Err(e)
        },
    }
}

/// The back end is a function of the three-address code: with the liveness lists and
/// the interference graph it computes, any two runs that succeed give the same lowered
/// code, and a run that succeeds rules out one that fails.
pub proof fn lemma_back_end_deterministic(
    code: Seq<TacInstrView>,
    l1: Seq<Vec<String>>,
    g1: Seq<(String, Vec<String>)>,
    a1: Seq<(String, isize)>,
    x1: Seq<AsmView>,
    l2: Seq<Vec<String>>,
    g2: Seq<(String, Vec<String>)>,
    a2: Seq<(String, isize)>,
)
    requires
        computed(code, l1, g1),
        computed(code, l2, g2),
        back_end_gives(code, l1, g1, a1, x1),
    ensures
        forall|x2: Seq<AsmView>| back_end_gives(code, l2, g2, a2, x2) ==> x2 == x1,
        !back_end_fails(code, l2, g2, a2),
{
    assert(g1.len() == adj_view(g1).len());
    assert(g2.len() == adj_view(g2).len());
    if saturation_colouring(g2, a2) {
        lemma_colouring_unique(g1, g2, a1, a2);
        lemma_generated_views(code, a1, a2, l1, l2);
    }
}

} // verus!
