//! Removing instructions that do nothing.
use vstd::prelude::*;
use crate::codegenerator::Argument;
use crate::codegenerator::ArgView;
use crate::codegenerator::same_register;
use crate::codegenerator::arg_view;
use crate::instructionsimplifier::AssemblyInstruction;
use crate::instructionsimplifier::AsmView;
use crate::instructionsimplifier::asm_view;
use crate::instructionsimplifier::asms_view;
use crate::instructionsimplifier::copy_arg;

verus! {

/// Whether two operands are the same, registers compared whatever their width.
pub open spec fn same_arg(a: ArgView, b: ArgView) -> bool {
    match (a, b) {
        (ArgView::Register(x), ArgView::Register(y)) => same_register(x, y),
        (ArgView::Immediate(x), ArgView::Immediate(y)) => x == y,
        (ArgView::Label(x), ArgView::Label(y)) => x == y,
        (ArgView::MemoryAddressDirect(x), ArgView::MemoryAddressDirect(y)) => x == y,
        (ArgView::MemoryAddressRegister(x), ArgView::MemoryAddressRegister(y)) => same_register(x, y),
        _ => false,
    }
}

/// The instructions without a move of an operand to itself and with each run of `nop`s
/// cut to its first; `after_nop` tells whether the instruction before was a kept or
/// dropped `nop`.
pub open spec fn optimise_from(s: Seq<AsmView>, after_nop: bool) -> Seq<AsmView>
    decreases s.len(),
{
    if s.len() == 0 {
        seq![]
    } else {
        let i = s[0];
        match i {
            AsmView::Nop => if after_nop {
                optimise_from(s.drop_first(), true)
            } else {
                seq![i] + optimise_from(s.drop_first(), true)
            },
            AsmView::Mov(a, b) => (if same_arg(a, b) { seq![] } else { seq![i] }) + optimise_from(s.drop_first(), false),
            _ => seq![i] + optimise_from(s.drop_first(), false),
        }
    }
}

fn same_arg_exec(a: &Argument, b: &Argument) -> (r: bool)
    ensures
        r == same_arg(arg_view(*a), arg_view(*b)),
{
    match (a, b) {
        (Argument::Register(x), Argument::Register(y)) => *x == *y,
        (Argument::Immediate(x), Argument::Immediate(y)) => *x == *y,
        (Argument::Label(x), Argument::Label(y)) => *x == *y,
        (Argument::MemoryAddressDirect(x), Argument::MemoryAddressDirect(y)) => *x == *y,
        (Argument::MemoryAddressRegister(x), Argument::MemoryAddressRegister(y)) => *x == *y,
        _ => false,
    }
}

fn copy_instruction(i: &AssemblyInstruction) -> (r: AssemblyInstruction)
    ensures
        asm_view(r) == asm_view(*i),
{
    match i {
        AssemblyInstruction::Mov(a, b) => AssemblyInstruction::Mov(copy_arg(a), copy_arg(b)),
        AssemblyInstruction::Add(a, b) => AssemblyInstruction::Add(copy_arg(a), copy_arg(b)),
        AssemblyInstruction::Sub(a, b) => AssemblyInstruction::Sub(copy_arg(a), copy_arg(b)),
        AssemblyInstruction::Mul(a, b) => AssemblyInstruction::Mul(copy_arg(a), copy_arg(b)),
        AssemblyInstruction::Div(a) => AssemblyInstruction::Div(copy_arg(a)),
        AssemblyInstruction::Xor(a, b) => AssemblyInstruction::Xor(copy_arg(a), copy_arg(b)),
        AssemblyInstruction::And(a, b) => AssemblyInstruction::And(copy_arg(a), copy_arg(b)),
        AssemblyInstruction::Or(a, b) => AssemblyInstruction::Or(copy_arg(a), copy_arg(b)),
        AssemblyInstruction::Not(a) => AssemblyInstruction::Not(copy_arg(a)),
        AssemblyInstruction::Cmp(a, b) => AssemblyInstruction::Cmp(copy_arg(a), copy_arg(b)),
        AssemblyInstruction::Jmp(l) => AssemblyInstruction::Jmp(l.clone()),
        AssemblyInstruction::Je(l) => AssemblyInstruction::Je(l.clone()),
        AssemblyInstruction::Jne(l) => AssemblyInstruction::Jne(l.clone()),
        AssemblyInstruction::Jg(l) => AssemblyInstruction::Jg(l.clone()),
        AssemblyInstruction::Jge(l) => AssemblyInstruction::Jge(l.clone()),
        AssemblyInstruction::Jl(l) => AssemblyInstruction::Jl(l.clone()),
        AssemblyInstruction::Jle(l) => AssemblyInstruction::Jle(l.clone()),
        AssemblyInstruction::Ret => AssemblyInstruction::Ret,
        AssemblyInstruction::Push(a) => AssemblyInstruction::Push(copy_arg(a)),
        AssemblyInstruction::Pop(a) => AssemblyInstruction::Pop(copy_arg(a)),
        AssemblyInstruction::Label(l) => AssemblyInstruction::Label(l.clone()),
        AssemblyInstruction::ExternCall(l) => AssemblyInstruction::ExternCall(l.clone()),
        AssemblyInstruction::Call(l) => AssemblyInstruction::Call(l.clone()),
        AssemblyInstruction::Nop => AssemblyInstruction::Nop,
        AssemblyInstruction::ProgramStart => AssemblyInstruction::ProgramStart,
        AssemblyInstruction::Comment(c) => AssemblyInstruction::Comment(c.clone()),
    }
}

/// The instructions without moves of an operand to itself, and with each run of
/// consecutive `nop`s cut to its first, in order.
pub fn optimise_assembly(assembly: &Vec<AssemblyInstruction>) -> (r: Vec<AssemblyInstruction>)
    ensures
        asms_view(r@) == optimise_from(asms_view(assembly@), false),
{
    let ghost sv = asms_view(assembly@);
    let n = assembly.len();
    let mut out: Vec<AssemblyInstruction> = Vec::new();
    let mut after_nop = false;
    let mut k: usize = 0;
    assert(sv.subrange(0, 0 + n) =~= sv);
    assert(asms_view(out@) + optimise_from(sv.subrange(0, n as int), false) =~= optimise_from(sv, false));
    while k < n
        invariant
            n == assembly@.len(),
            sv == asms_view(assembly@),
            k <= n,
            asms_view(out@) + optimise_from(sv.subrange(k as int, n as int), after_nop) == optimise_from(sv, false),
        decreases n - k,
    {
        let ghost rest = sv.subrange(k as int, n as int);
        assert(rest[0] == asm_view(assembly@[k as int]));
        assert(rest.drop_first() =~= sv.subrange(k + 1, n as int));
        let ghost before = asms_view(out@);
        let i = &assembly[k];
        match i {
            AssemblyInstruction::Nop => {
                if !after_nop {
                    out.push(AssemblyInstruction::Nop);
                    assert(asms_view(out@) =~= before + seq![AsmView::Nop]);
                }
                after_nop = true;
            },
            AssemblyInstruction::Mov(a, b) => {
                if !same_arg_exec(a, b) {
                    out.push(copy_instruction(i));
                    assert(asms_view(out@) =~= before + seq![asm_view(*i)]);
                } else {
                    assert(asms_view(out@) =~= before + Seq::<AsmView>::empty());
                }
                after_nop = false;
            },
            _ => {
                out.push(copy_instruction(i));
                assert(asms_view(out@) =~= before + seq![asm_view(*i)]);
                after_nop = false;
            },
        }
        k = k + 1;
    }
    out
}

/// Whether an instruction moves an operand to itself.
pub open spec fn is_self_move(i: AsmView) -> bool {
    i matches AsmView::Mov(a, b) && same_arg(a, b)
}

/// The optimised code holds no move of an operand to itself, is no longer than the
/// code it came from, and holds only instructions of that code.
pub proof fn lemma_optimise_removes_self_moves(s: Seq<AsmView>, after_nop: bool)
    ensures
        forall|k: int| 0 <= k < optimise_from(s, after_nop).len() ==> !is_self_move(#[trigger] optimise_from(s, after_nop)[k]),
        optimise_from(s, after_nop).len() <= s.len(),
        forall|k: int| 0 <= k < optimise_from(s, after_nop).len() ==> s.contains(#[trigger] optimise_from(s, after_nop)[k]),
    decreases s.len(),
{
    if s.len() > 0 {
        let rest = s.drop_first();
        lemma_optimise_removes_self_moves(rest, true);
        lemma_optimise_removes_self_moves(rest, false);
        let o = optimise_from(s, after_nop);
        assert forall|k: int| 0 <= k < o.len() implies !is_self_move(#[trigger] o[k]) && s.contains(o[k]) by {
            match s[0] {
                AsmView::Nop => {
                    if after_nop {
                        assert(o == optimise_from(rest, true));
                        let j = choose|j: int| 0 <= j < rest.len() && rest[j] == o[k];
                        assert(s[j + 1] == o[k]);
                    } else {
                        assert(o == seq![s[0]] + optimise_from(rest, true));
                        if k == 0 {
                            assert(s[0] == o[k]);
                        } else {
                            assert(o[k] == optimise_from(rest, true)[k - 1]);
                            let j = choose|j: int| 0 <= j < rest.len() && rest[j] == o[k];
                            assert(s[j + 1] == o[k]);
                        }
                    }
                },
                AsmView::Mov(a, b) => {
                    if same_arg(a, b) {
                        assert(o =~= optimise_from(rest, false));
                        let j = choose|j: int| 0 <= j < rest.len() && rest[j] == o[k];
                        assert(s[j + 1] == o[k]);
                    } else {
                        assert(o == seq![s[0]] + optimise_from(rest, false));
                        if k == 0 {
                            assert(s[0] == o[k]);
                        } else {
                            assert(o[k] == optimise_from(rest, false)[k - 1]);
                            let j = choose|j: int| 0 <= j < rest.len() && rest[j] == o[k];
                            assert(s[j + 1] == o[k]);
                        }
                    }
                },
                _ => {
                    assert(o == seq![s[0]] + optimise_from(rest, false));
                    if k == 0 {
                        assert(s[0] == o[k]);
                    } else {
                        assert(o[k] == optimise_from(rest, false)[k - 1]);
                        let j = choose|j: int| 0 <= j < rest.len() && rest[j] == o[k];
                        assert(s[j + 1] == o[k]);
                    }
                },
            }
        }
    }
}

} // verus!
