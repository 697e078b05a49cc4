//! Lowering three-operand instructions to x86's two-operand forms.
use vstd::prelude::*;
use crate::tokenizer::Error;
use crate::codegenerator::Argument;
use crate::codegenerator::ArgView;
use crate::codegenerator::Instruction;
use crate::codegenerator::InstrView;
use crate::codegenerator::Register;
use crate::codegenerator::RegisterType;
use crate::codegenerator::RegisterSize;
use crate::codegenerator::arg_view;
use crate::codegenerator::minstr_view;
use crate::codegenerator::minstrs_view;
use crate::codegenerator::same_register;
use crate::codegenerator::q;

verus! {

/// An x86 instruction with its own operand forms: the destination is also the first
/// source.
#[derive(Debug, PartialEq)]
pub enum AssemblyInstruction {
    Mov(Argument, Argument),
    Add(Argument, Argument),
    Sub(Argument, Argument),
    Mul(Argument, Argument),
    /// Divides `rdx:rax` by the operand: the quotient goes to `rax`, the remainder to `rdx`.
    Div(Argument),
    Xor(Argument, Argument),
    And(Argument, Argument),
    Or(Argument, Argument),
    Not(Argument),
    Cmp(Argument, Argument),
    Jmp(String),
    Je(String),
    Jne(String),
    Jg(String),
    Jge(String),
    Jl(String),
    Jle(String),
    Ret,
    Push(Argument),
    Pop(Argument),
    Label(String),
    ExternCall(String),
    Call(String),
    Nop,
    ProgramStart,
    Comment(String),
}

/// The mathematical content of an x86 instruction.
pub enum AsmView {
    Mov(ArgView, ArgView),
    Add(ArgView, ArgView),
    Sub(ArgView, ArgView),
    Mul(ArgView, ArgView),
    Div(ArgView),
    Xor(ArgView, ArgView),
    And(ArgView, ArgView),
    Or(ArgView, ArgView),
    Not(ArgView),
    Cmp(ArgView, ArgView),
    Jmp(Seq<char>),
    Je(Seq<char>),
    Jne(Seq<char>),
    Jg(Seq<char>),
    Jge(Seq<char>),
    Jl(Seq<char>),
    Jle(Seq<char>),
    Ret,
    Push(ArgView),
    Pop(ArgView),
    Label(Seq<char>),
    ExternCall(Seq<char>),
    Call(Seq<char>),
    Nop,
    ProgramStart,
    Comment(Seq<char>),
}

/// The view of an x86 instruction.
pub open spec fn asm_view(i: AssemblyInstruction) -> AsmView {
    match i {
        AssemblyInstruction::Mov(a, b) => AsmView::Mov(arg_view(a), arg_view(b)),
        AssemblyInstruction::Add(a, b) => AsmView::Add(arg_view(a), arg_view(b)),
        AssemblyInstruction::Sub(a, b) => AsmView::Sub(arg_view(a), arg_view(b)),
        AssemblyInstruction::Mul(a, b) => AsmView::Mul(arg_view(a), arg_view(b)),
        AssemblyInstruction::Div(a) => AsmView::Div(arg_view(a)),
        AssemblyInstruction::Xor(a, b) => AsmView::Xor(arg_view(a), arg_view(b)),
        AssemblyInstruction::And(a, b) => AsmView::And(arg_view(a), arg_view(b)),
        AssemblyInstruction::Or(a, b) => AsmView::Or(arg_view(a), arg_view(b)),
        AssemblyInstruction::Not(a) => AsmView::Not(arg_view(a)),
        AssemblyInstruction::Cmp(a, b) => AsmView::Cmp(arg_view(a), arg_view(b)),
        AssemblyInstruction::Jmp(l) => AsmView::Jmp(l@),
        AssemblyInstruction::Je(l) => AsmView::Je(l@),
        AssemblyInstruction::Jne(l) => AsmView::Jne(l@),
        AssemblyInstruction::Jg(l) => AsmView::Jg(l@),
        AssemblyInstruction::Jge(l) => AsmView::Jge(l@),
        AssemblyInstruction::Jl(l) => AsmView::Jl(l@),
        AssemblyInstruction::Jle(l) => AsmView::Jle(l@),
        AssemblyInstruction::Ret => AsmView::Ret,
        AssemblyInstruction::Push(a) => AsmView::Push(arg_view(a)),
        AssemblyInstruction::Pop(a) => AsmView::Pop(arg_view(a)),
        AssemblyInstruction::Label(l) => AsmView::Label(l@),
        AssemblyInstruction::ExternCall(l) => AsmView::ExternCall(l@),
        AssemblyInstruction::Call(l) => AsmView::Call(l@),
        AssemblyInstruction::Nop => AsmView::Nop,
        AssemblyInstruction::ProgramStart => AsmView::ProgramStart,
        AssemblyInstruction::Comment(c) => AsmView::Comment(c@),
    }
}

/// The views of x86 instructions.
pub open spec fn asms_view(s: Seq<AssemblyInstruction>) -> Seq<AsmView> {
    s.map_values(|i: AssemblyInstruction| asm_view(i))
}

/// `rax` as an operand.
pub open spec fn rax() -> ArgView {
    ArgView::Register(q(RegisterType::RAX))
}

/// `rdx` as an operand.
pub open spec fn rdx() -> ArgView {
    ArgView::Register(q(RegisterType::RDX))
}

/// The operations that lower the same way.
#[derive(PartialEq, Eq, Structural, Clone, Copy)]
pub enum CommOp {
    Add,
    Mul,
    Xor,
    And,
    Or,
}

/// The two-operand instruction of an operation.
pub open spec fn make(op: CommOp, x: ArgView, y: ArgView) -> AsmView {
    match op {
        CommOp::Add => AsmView::Add(x, y),
        CommOp::Mul => AsmView::Mul(x, y),
        CommOp::Xor => AsmView::Xor(x, y),
        CommOp::And => AsmView::And(x, y),
        CommOp::Or => AsmView::Or(x, y),
    }
}

/// An operation `d = s1 op s2` in two-operand form: done in place when a source is the
/// destination, otherwise after copying the first source into it.
pub open spec fn lower_commutative(op: CommOp, d: ArgView, s1: ArgView, s2: ArgView) -> Option<Seq<AsmView>> {
    match (d, s1, s2) {
        (ArgView::Register(dr), ArgView::Register(r1), ArgView::Register(r2)) =>
            if same_register(r1, dr) { Some(seq![make(op, d, s2)]) }
            else if same_register(r2, dr) { Some(seq![make(op, d, s1)]) }
            else { Some(seq![AsmView::Mov(d, s1), make(op, d, s2)]) },
        (ArgView::Register(dr), ArgView::Register(r1), _) =>
            if same_register(r1, dr) { Some(seq![make(op, d, s2)]) } else { Some(seq![AsmView::Mov(d, s1), make(op, d, s2)]) },
        _ => None,
    }
}

/// The two-operand form of an instruction, where one is supported.
pub open spec fn lower(i: InstrView) -> Option<Seq<AsmView>> {
    match i {
        InstrView::Mov(d, s) => Some(seq![AsmView::Mov(d, s)]),
        InstrView::Add(d, s1, s2) => match (d, s1, s2) {
            (ArgView::Register(_), ArgView::Immediate(_), ArgView::Immediate(_)) => Some(seq![AsmView::Mov(d, s1), AsmView::Add(d, s2)]),
            _ => lower_commutative(CommOp::Add, d, s1, s2),
        },
        InstrView::Sub(d, s1, s2) => match (d, s1, s2) {
            (ArgView::Register(dr), ArgView::Register(r1), ArgView::Register(r2)) =>
                if same_register(r1, dr) { Some(seq![AsmView::Sub(d, s2)]) }
                else if same_register(r2, dr) { Some(seq![AsmView::Mov(rax(), s1), AsmView::Sub(rax(), s2), AsmView::Mov(d, rax())]) }
                else { Some(seq![AsmView::Mov(d, s1), AsmView::Sub(d, s2)]) },
            (ArgView::Register(dr), ArgView::Register(r1), _) =>
                if same_register(r1, dr) { Some(seq![AsmView::Sub(d, s2)]) } else { Some(seq![AsmView::Mov(d, s1), AsmView::Sub(d, s2)]) },
            (ArgView::Register(dr), ArgView::Immediate(_), ArgView::Register(r2)) =>
                if same_register(r2, dr) { Some(seq![AsmView::Mov(rax(), s1), AsmView::Sub(rax(), s2), AsmView::Mov(d, rax())]) }
                else { Some(seq![AsmView::Mov(d, s1), AsmView::Sub(d, s2)]) },
            _ => None,
        },
        InstrView::Mul(d, s1, s2) => lower_commutative(CommOp::Mul, d, s1, s2),
        InstrView::Xor(d, s1, s2) => lower_commutative(CommOp::Xor, d, s1, s2),
        InstrView::And(d, s1, s2) => lower_commutative(CommOp::And, d, s1, s2),
        InstrView::Or(d, s1, s2) => lower_commutative(CommOp::Or, d, s1, s2),
        InstrView::Div(qd, rd, v, dv) => match rd {
            ArgView::Register(rr) => {
                let save = !same_register(rr, q(RegisterType::RDX));
                let core = seq![AsmView::Mov(rax(), v), AsmView::Xor(rdx(), rdx()), AsmView::Div(dv), AsmView::Mov(qd, rax()), AsmView::Mov(rd, rdx())];
                if save { Some(seq![AsmView::Push(rdx())] + core + seq![AsmView::Pop(rdx())]) } else { Some(core) }
            },
            _ => None,
        },
        InstrView::Not(d, s) => match (d, s) {
            (ArgView::Register(dr), ArgView::Register(r1)) =>
                if same_register(r1, dr) { Some(seq![AsmView::Not(d)]) } else { Some(seq![AsmView::Mov(d, s), AsmView::Not(d)]) },
            (ArgView::Register(_), _) => Some(seq![AsmView::Mov(d, s), AsmView::Not(d)]),
            _ => None,
        },
        InstrView::Cmp(a, b) => match (a, b) {
            (ArgView::Immediate(_), ArgView::Immediate(_)) => Some(seq![AsmView::Mov(rax(), a), AsmView::Cmp(rax(), b)]),
            (ArgView::Immediate(_), ArgView::Register(_)) => Some(seq![AsmView::Cmp(b, a)]),
            _ => Some(seq![AsmView::Cmp(a, b)]),
        },
        InstrView::Jmp(l) => Some(seq![AsmView::Jmp(l)]),
        InstrView::Je(l) => Some(seq![AsmView::Je(l)]),
        InstrView::Jne(l) => Some(seq![AsmView::Jne(l)]),
        InstrView::Jg(l) => Some(seq![AsmView::Jg(l)]),
        InstrView::Jge(l) => Some(seq![AsmView::Jge(l)]),
        InstrView::Jl(l) => Some(seq![AsmView::Jl(l)]),
        InstrView::Jle(l) => Some(seq![AsmView::Jle(l)]),
        InstrView::Ret => Some(seq![AsmView::Ret]),
        InstrView::Push(a) => Some(seq![AsmView::Push(a)]),
        InstrView::Pop(a) => Some(seq![AsmView::Pop(a)]),
        InstrView::Label(l) => Some(seq![AsmView::Label(l)]),
        InstrView::ExternCall(l) => Some(seq![AsmView::ExternCall(l)]),
        InstrView::Call(l) => Some(seq![AsmView::Call(l)]),
        InstrView::Nop => Some(seq![AsmView::Nop]),
        InstrView::ProgramStart => Some(seq![AsmView::ProgramStart]),
    }
}

/// Which register a register operand names, whatever the width it is used at: whether
/// it is one of `r8` to `r15`, and its number or kind.
pub open spec fn reg_key(r: Register) -> (bool, int) {
    match r {
        Register::General(t, _) => (false, match t {
            RegisterType::RAX => 0int,
            RegisterType::RCX => 1,
            RegisterType::RDX => 2,
            RegisterType::RBX => 3,
            RegisterType::RSP => 4,
            RegisterType::RBP => 5,
            RegisterType::RSI => 6,
            RegisterType::RDI => 7,
        }),
        Register::Extended(n, _) => (true, n as int),
    }
}

/// The value of an operand when the registers hold `regs`.
pub open spec fn operand_value(regs: Map<(bool, int), int>, x: ArgView) -> int {
    match x {
        ArgView::Register(r) => regs[reg_key(r)],
        ArgView::Immediate(i) => i as int,
        _ => 0,
    }
}

/// The registers after a two-operand move, addition, subtraction or multiplication of
/// integers (`d = d op x`); other instructions leave them as they are.
pub open spec fn step_two(regs: Map<(bool, int), int>, i: AsmView) -> Map<(bool, int), int> {
    match i {
        AsmView::Mov(ArgView::Register(d), x) => regs.insert(reg_key(d), operand_value(regs, x)),
        AsmView::Add(ArgView::Register(d), x) => regs.insert(reg_key(d), regs[reg_key(d)] + operand_value(regs, x)),
        AsmView::Sub(ArgView::Register(d), x) => regs.insert(reg_key(d), regs[reg_key(d)] - operand_value(regs, x)),
        AsmView::Mul(ArgView::Register(d), x) => regs.insert(reg_key(d), regs[reg_key(d)] * operand_value(regs, x)),
        _ => regs,
    }
}

/// The registers after running straight-line two-operand code.
pub open spec fn run_two(regs: Map<(bool, int), int>, s: Seq<AsmView>) -> Map<(bool, int), int>
    decreases s.len(),
{
    if s.len() == 0 {
        regs
    } else {
        step_two(run_two(regs, s.drop_last()), s.last())
    }
}

proof fn lemma_same_register_key(a: Register, b: Register)
    ensures
        same_register(a, b) <==> reg_key(a) == reg_key(b),
{
}

/// Whether a subtraction `d = x - y` is the one case that lowering gets wrong (as the
/// three-operand form always was lowered): the destination and the subtrahend are both
/// `rax`, which lowering uses as its scratch register, and the minuend is not.
pub open spec fn rax_clobbered(d: Register, x: ArgView, y: ArgView) -> bool {
    &&& reg_key(d) == (false, 0int)
    &&& y matches ArgView::Register(r2) && reg_key(r2) == (false, 0int)
    &&& !(x matches ArgView::Register(r1) && reg_key(r1) == (false, 0int))
}

/// Lowering keeps what a three-operand instruction computes: for `d = x + y`,
/// `d = x - y` and `d = x * y`, the two-operand code leaves in `d` the sum, difference or
/// product of the values `x` and `y` had before, whichever registers coincide, except
/// the subtraction that `rax_clobbered` describes; and a move leaves in `d` the moved
/// value.
pub proof fn lemma_lowering_keeps_values(d: Register, x: ArgView, y: ArgView, regs: Map<(bool, int), int>)
    ensures
        ({
            let (dv, xv, yv) = (ArgView::Register(d), operand_value(regs, x), operand_value(regs, y));
            &&& lower(InstrView::Mov(dv, x)) matches Some(s) && run_two(regs, s)[reg_key(d)] == xv
            &&& lower(InstrView::Add(dv, x, y)) matches Some(s) ==> run_two(regs, s)[reg_key(d)] == xv + yv
            &&& lower(InstrView::Sub(dv, x, y)) matches Some(s) ==> (rax_clobbered(d, x, y) || run_two(regs, s)[reg_key(d)] == xv - yv)
            &&& lower(InstrView::Mul(dv, x, y)) matches Some(s) ==> run_two(regs, s)[reg_key(d)] == xv * yv
        }),
{
    reveal_with_fuel(run_two, 4);
    let dv = ArgView::Register(d);
    if let ArgView::Register(r1) = x {
        lemma_same_register_key(r1, d);
    }
    if let ArgView::Register(r2) = y {
        lemma_same_register_key(r2, d);
    }
    let (xv, yv) = (operand_value(regs, x), operand_value(regs, y));
    assert(xv * yv == yv * xv) by (nonlinear_arith);
    if let Some(s) = lower(InstrView::Add(dv, x, y)) {
        if s.len() == 2 {
            assert(s.drop_last() =~= seq![s[0]]);
            assert(s.drop_last().drop_last() =~= Seq::<AsmView>::empty());
        } else if s.len() == 1 {
            assert(s.drop_last() =~= Seq::<AsmView>::empty());
        }
    }
    if let Some(s) = lower(InstrView::Mul(dv, x, y)) {
        if s.len() == 2 {
            assert(s.drop_last() =~= seq![s[0]]);
            assert(s.drop_last().drop_last() =~= Seq::<AsmView>::empty());
        } else if s.len() == 1 {
            assert(s.drop_last() =~= Seq::<AsmView>::empty());
        }
    }
    if let Some(s) = lower(InstrView::Sub(dv, x, y)) {
        if s.len() == 3 {
            assert(s.drop_last() =~= seq![s[0], s[1]]);
            assert(s.drop_last().drop_last() =~= seq![s[0]]);
            assert(s.drop_last().drop_last().drop_last() =~= Seq::<AsmView>::empty());
        } else if s.len() == 2 {
            assert(s.drop_last() =~= seq![s[0]]);
            assert(s.drop_last().drop_last() =~= Seq::<AsmView>::empty());
        } else if s.len() == 1 {
            assert(s.drop_last() =~= Seq::<AsmView>::empty());
        }
    }
    let sm = seq![AsmView::Mov(dv, x)];
    assert(sm.drop_last() =~= Seq::<AsmView>::empty());
}

/// The two-operand forms of instructions, in order.
pub open spec fn lower_all(s: Seq<InstrView>) -> Option<Seq<AsmView>>
    decreases s.len(),
{
    if s.len() == 0 {
        Some(seq![])
    } else {
        match (lower_all(s.drop_last()), lower(s.last())) {
            (Some(a), Some(b)) => Some(a + b),
            _ => None,
        }
    }
}

pub(crate) fn copy_arg(a: &Argument) -> (r: Argument)
    ensures
        arg_view(r) == arg_view(*a),
{
    match a {
        Argument::Register(g) => Argument::Register(*g),
        Argument::Immediate(i) => Argument::Immediate(*i),
        Argument::Label(l) => Argument::Label(l.clone()),
        Argument::MemoryAddressDirect(m) => Argument::MemoryAddressDirect(*m),
        Argument::MemoryAddressRegister(g) => Argument::MemoryAddressRegister(*g),
    }
}

fn put(out: &mut Vec<AssemblyInstruction>, i: AssemblyInstruction)
    ensures
        asms_view(final(out)@) == asms_view(old(out)@).push(asm_view(i)),
{
    out.push(i);
    assert(asms_view(out@) =~= asms_view(old(out)@).push(asm_view(i)));
}

fn rax_arg() -> (r: Argument)
    ensures
        arg_view(r) == rax(),
{
    Argument::Register(Register::General(RegisterType::RAX, RegisterSize::QuadWord))
}

fn rdx_arg() -> (r: Argument)
    ensures
        arg_view(r) == rdx(),
{
    Argument::Register(Register::General(RegisterType::RDX, RegisterSize::QuadWord))
}

fn make_exec(op: CommOp, x: Argument, y: Argument) -> (r: AssemblyInstruction)
    ensures
        asm_view(r) == make(op, arg_view(x), arg_view(y)),
{
    match op {
        CommOp::Add => AssemblyInstruction::Add(x, y),
        CommOp::Mul => AssemblyInstruction::Mul(x, y),
        CommOp::Xor => AssemblyInstruction::Xor(x, y),
        CommOp::And => AssemblyInstruction::And(x, y),
        CommOp::Or => AssemblyInstruction::Or(x, y),
    }
}

fn lower_comm_exec(op: CommOp, d: &Argument, s1: &Argument, s2: &Argument, out: &mut Vec<AssemblyInstruction>) -> (ok: bool)
    ensures
        match lower_commutative(op, arg_view(*d), arg_view(*s1), arg_view(*s2)) {
            None => !ok,
            Some(t) => ok && asms_view(final(out)@) == asms_view(old(out)@) + t,
        },
{
    let ghost base = asms_view(out@);
    let ghost (dv, v1, v2) = (arg_view(*d), arg_view(*s1), arg_view(*s2));
    match (d, s1, s2) {
        (Argument::Register(dr), Argument::Register(r1), Argument::Register(r2)) => {
            if *r1 == *dr {
                put(out, make_exec(op, copy_arg(d), copy_arg(s2)));
                assert(asms_view(out@) =~= base + seq![make(op, dv, v2)]);
            } else if *r2 == *dr {
                put(out, make_exec(op, copy_arg(d), copy_arg(s1)));
                assert(asms_view(out@) =~= base + seq![make(op, dv, v1)]);
            } else {
                put(out, AssemblyInstruction::Mov(copy_arg(d), copy_arg(s1)));
                put(out, make_exec(op, copy_arg(d), copy_arg(s2)));
                assert(asms_view(out@) =~= base + seq![AsmView::Mov(dv, v1), make(op, dv, v2)]);
            }
            true
        },
        (Argument::Register(dr), Argument::Register(r1), _) => {
            if *r1 == *dr {
                put(out, make_exec(op, copy_arg(d), copy_arg(s2)));
                assert(asms_view(out@) =~= base + seq![make(op, dv, v2)]);
            } else {
                put(out, AssemblyInstruction::Mov(copy_arg(d), copy_arg(s1)));
                put(out, make_exec(op, copy_arg(d), copy_arg(s2)));
                assert(asms_view(out@) =~= base + seq![AsmView::Mov(dv, v1), make(op, dv, v2)]);
            }
            true
        },
        _ => false,
    }
}

fn lower_exec(i: &Instruction, out: &mut Vec<AssemblyInstruction>) -> (ok: bool)
    ensures
        match lower(minstr_view(*i)) {
            None => !ok,
            Some(t) => ok && asms_view(final(out)@) == asms_view(old(out)@) + t,
        },
{
    let ghost base = asms_view(out@);
    match i {
        Instruction::Mov(d, s) => {
            put(out, AssemblyInstruction::Mov(copy_arg(d), copy_arg(s)));
            assert(asms_view(out@) =~= base + seq![AsmView::Mov(arg_view(*d), arg_view(*s))]);
            true
        },
        Instruction::Add(d, s1, s2) => {
            match (d, s1, s2) {
                (Argument::Register(_), Argument::Immediate(_), Argument::Immediate(_)) => {
                    put(out, AssemblyInstruction::Mov(copy_arg(d), copy_arg(s1)));
                    put(out, AssemblyInstruction::Add(copy_arg(d), copy_arg(s2)));
                    assert(asms_view(out@) =~= base + seq![AsmView::Mov(arg_view(*d), arg_view(*s1)), AsmView::Add(arg_view(*d), arg_view(*s2))]);
                    true
                },
                _ => lower_comm_exec(CommOp::Add, d, s1, s2, out),
            }
        },
        Instruction::Sub(d, s1, s2) => {
            let ghost (dv, v1, v2) = (arg_view(*d), arg_view(*s1), arg_view(*s2));
            match (d, s1, s2) {
                (Argument::Register(dr), Argument::Register(r1), Argument::Register(r2)) => {
                    if *r1 == *dr {
                        put(out, AssemblyInstruction::Sub(copy_arg(d), copy_arg(s2)));
                        assert(asms_view(out@) =~= base + seq![AsmView::Sub(dv, v2)]);
                    } else if *r2 == *dr {
                        put(out, AssemblyInstruction::Mov(rax_arg(), copy_arg(s1)));
                        put(out, AssemblyInstruction::Sub(rax_arg(), copy_arg(s2)));
                        put(out, AssemblyInstruction::Mov(copy_arg(d), rax_arg()));
                        assert(asms_view(out@) =~= base + seq![AsmView::Mov(rax(), v1), AsmView::Sub(rax(), v2), AsmView::Mov(dv, rax())]);
                    } else {
                        put(out, AssemblyInstruction::Mov(copy_arg(d), copy_arg(s1)));
                        put(out, AssemblyInstruction::Sub(copy_arg(d), copy_arg(s2)));
                        assert(asms_view(out@) =~= base + seq![AsmView::Mov(dv, v1), AsmView::Sub(dv, v2)]);
                    }
                    true
                },
                (Argument::Register(dr), Argument::Register(r1), _) => {
                    if *r1 == *dr {
                        put(out, AssemblyInstruction::Sub(copy_arg(d), copy_arg(s2)));
                        assert(asms_view(out@) =~= base + seq![AsmView::Sub(dv, v2)]);
                    } else {
                        put(out, AssemblyInstruction::Mov(copy_arg(d), copy_arg(s1)));
                        put(out, AssemblyInstruction::Sub(copy_arg(d), copy_arg(s2)));
                        assert(asms_view(out@) =~= base + seq![AsmView::Mov(dv, v1), AsmView::Sub(dv, v2)]);
                    }
                    true
                },
                (Argument::Register(dr), Argument::Immediate(_), Argument::Register(r2)) => {
                    if *r2 == *dr {
                        put(out, AssemblyInstruction::Mov(rax_arg(), copy_arg(s1)));
                        put(out, AssemblyInstruction::Sub(rax_arg(), copy_arg(s2)));
                        put(out, AssemblyInstruction::Mov(copy_arg(d), rax_arg()));
                        assert(asms_view(out@) =~= base + seq![AsmView::Mov(rax(), v1), AsmView::Sub(rax(), v2), AsmView::Mov(dv, rax())]);
                    } else {
                        put(out, AssemblyInstruction::Mov(copy_arg(d), copy_arg(s1)));
                        put(out, AssemblyInstruction::Sub(copy_arg(d), copy_arg(s2)));
                        assert(asms_view(out@) =~= base + seq![AsmView::Mov(dv, v1), AsmView::Sub(dv, v2)]);
                    }
                    true
                },
                _ => false,
            }
        },
        Instruction::Mul(d, s1, s2) => lower_comm_exec(CommOp::Mul, d, s1, s2, out),
        Instruction::Xor(d, s1, s2) => lower_comm_exec(CommOp::Xor, d, s1, s2, out),
        Instruction::And(d, s1, s2) => lower_comm_exec(CommOp::And, d, s1, s2, out),
        Instruction::Or(d, s1, s2) => lower_comm_exec(CommOp::Or, d, s1, s2, out),
        Instruction::Div(qd, rd, v, dv) => {
            match rd {
                Argument::Register(rr) => {
                    let save = !(*rr == Register::General(RegisterType::RDX, RegisterSize::QuadWord));
                    if save {
                        put(out, AssemblyInstruction::Push(rdx_arg()));
                    }
                    put(out, AssemblyInstruction::Mov(rax_arg(), copy_arg(v)));
                    put(out, AssemblyInstruction::Xor(rdx_arg(), rdx_arg()));
                    put(out, AssemblyInstruction::Div(copy_arg(dv)));
                    put(out, AssemblyInstruction::Mov(copy_arg(qd), rax_arg()));
                    put(out, AssemblyInstruction::Mov(copy_arg(rd), rdx_arg()));
                    if save {
                        put(out, AssemblyInstruction::Pop(rdx_arg()));
                    }
                    let ghost core = seq![AsmView::Mov(rax(), arg_view(*v)), AsmView::Xor(rdx(), rdx()), AsmView::Div(arg_view(*dv)), AsmView::Mov(arg_view(*qd), rax()), AsmView::Mov(arg_view(*rd), rdx())];
                    if save {
                        assert(asms_view(out@) =~= base + (seq![AsmView::Push(rdx())] + core + seq![AsmView::Pop(rdx())]));
                    } else {
                        assert(asms_view(out@) =~= base + core);
                    }
                    true
                },
                _ => false,
            }
        },
        Instruction::Not(d, s) => {
            let ghost (dv, sv) = (arg_view(*d), arg_view(*s));
            match (d, s) {
                (Argument::Register(dr), Argument::Register(r1)) => {
                    if *r1 == *dr {
                        put(out, AssemblyInstruction::Not(copy_arg(d)));
                        assert(asms_view(out@) =~= base + seq![AsmView::Not(dv)]);
                    } else {
                        put(out, AssemblyInstruction::Mov(copy_arg(d), copy_arg(s)));
                        put(out, AssemblyInstruction::Not(copy_arg(d)));
                        assert(asms_view(out@) =~= base + seq![AsmView::Mov(dv, sv), AsmView::Not(dv)]);
                    }
                    true
                },
                (Argument::Register(_), _) => {
                    put(out, AssemblyInstruction::Mov(copy_arg(d), copy_arg(s)));
                    put(out, AssemblyInstruction::Not(copy_arg(d)));
                    assert(asms_view(out@) =~= base + seq![AsmView::Mov(dv, sv), AsmView::Not(dv)]);
                    true
                },
                _ => false,
            }
        },
        Instruction::Cmp(a, b) => {
            let ghost (av, bv) = (arg_view(*a), arg_view(*b));
            match (a, b) {
                (Argument::Immediate(_), Argument::Immediate(_)) => {
                    put(out, AssemblyInstruction::Mov(rax_arg(), copy_arg(a)));
                    put(out, AssemblyInstruction::Cmp(rax_arg(), copy_arg(b)));
                    assert(asms_view(out@) =~= base + seq![AsmView::Mov(rax(), av), AsmView::Cmp(rax(), bv)]);
                },
                (Argument::Immediate(_), Argument::Register(_)) => {
                    put(out, AssemblyInstruction::Cmp(copy_arg(b), copy_arg(a)));
                    assert(asms_view(out@) =~= base + seq![AsmView::Cmp(bv, av)]);
                },
                _ => {
                    put(out, AssemblyInstruction::Cmp(copy_arg(a), copy_arg(b)));
                    assert(asms_view(out@) =~= base + seq![AsmView::Cmp(av, bv)]);
                },
            }
            true
        },
        Instruction::Jmp(l) => { put(out, AssemblyInstruction::Jmp(l.clone())); assert(asms_view(out@) =~= base + seq![AsmView::Jmp(l@)]); true },
        Instruction::Je(l) => { put(out, AssemblyInstruction::Je(l.clone())); assert(asms_view(out@) =~= base + seq![AsmView::Je(l@)]); true },
        Instruction::Jne(l) => { put(out, AssemblyInstruction::Jne(l.clone())); assert(asms_view(out@) =~= base + seq![AsmView::Jne(l@)]); true },
        Instruction::Jg(l) => { put(out, AssemblyInstruction::Jg(l.clone())); assert(asms_view(out@) =~= base + seq![AsmView::Jg(l@)]); true },
        Instruction::Jge(l) => { put(out, AssemblyInstruction::Jge(l.clone())); assert(asms_view(out@) =~= base + seq![AsmView::Jge(l@)]); true },
        Instruction::Jl(l) => { put(out, AssemblyInstruction::Jl(l.clone())); assert(asms_view(out@) =~= base + seq![AsmView::Jl(l@)]); true },
        Instruction::Jle(l) => { put(out, AssemblyInstruction::Jle(l.clone())); assert(asms_view(out@) =~= base + seq![AsmView::Jle(l@)]); true },
        Instruction::Ret => { put(out, AssemblyInstruction::Ret); assert(asms_view(out@) =~= base + seq![AsmView::Ret]); true },
        Instruction::Push(a) => { put(out, AssemblyInstruction::Push(copy_arg(a))); assert(asms_view(out@) =~= base + seq![AsmView::Push(arg_view(*a))]); true },
        Instruction::Pop(a) => { put(out, AssemblyInstruction::Pop(copy_arg(a))); assert(asms_view(out@) =~= base + seq![AsmView::Pop(arg_view(*a))]); true },
        Instruction::Label(l) => { put(out, AssemblyInstruction::Label(l.clone())); assert(asms_view(out@) =~= base + seq![AsmView::Label(l@)]); true },
        Instruction::ExternCall(l) => { put(out, AssemblyInstruction::ExternCall(l.clone())); assert(asms_view(out@) =~= base + seq![AsmView::ExternCall(l@)]); true },
        Instruction::Call(l) => { put(out, AssemblyInstruction::Call(l.clone())); assert(asms_view(out@) =~= base + seq![AsmView::Call(l@)]); true },
        Instruction::Nop => { put(out, AssemblyInstruction::Nop); assert(asms_view(out@) =~= base + seq![AsmView::Nop]); true },
        Instruction::ProgramStart => { put(out, AssemblyInstruction::ProgramStart); assert(asms_view(out@) =~= base + seq![AsmView::ProgramStart]); true },
    }
}

proof fn lemma_lower_all_none(s: Seq<InstrView>, k: int)
    requires
        0 <= k <= s.len(),
        lower_all(s.subrange(0, k)) is None,
    ensures
        lower_all(s) is None,
    decreases s.len() - k,
{
    if k < s.len() {
        assert(s.drop_last().subrange(0, k) =~= s.subrange(0, k));
        lemma_lower_all_none(s.drop_last(), k);
    } else {
        assert(s.subrange(0, k) =~= s);
    }
}

/// The instructions in x86's two-operand forms, in order, or an error where an
/// instruction has operands that no form takes.
pub fn try_to_assembly_instructions(instructions: &Vec<Instruction>) -> (r: Result<Vec<AssemblyInstruction>, Error>)
    ensures
        match lower_all(minstrs_view(instructions@)) {
            None => r matches Err(e) && e is SimpleError,
            Some(t) => r matches Ok(v) && asms_view(v@) == t,
        },
{
    let ghost sv = minstrs_view(instructions@);
    let mut out: Vec<AssemblyInstruction> = Vec::new();
    let mut k: usize = 0;
    assert(asms_view(out@) =~= Seq::<AsmView>::empty());
    while k < instructions.len()
        invariant
            k <= instructions@.len(),
            sv == minstrs_view(instructions@),
            lower_all(sv.subrange(0, k as int)) == Some(asms_view(out@)),
        decreases instructions@.len() - k,
    {
        assert(sv.subrange(0, k + 1).drop_last() =~= sv.subrange(0, k as int));
        assert(sv.subrange(0, k + 1).last() == minstr_view(instructions@[k as int]));
        if !lower_exec(&instructions[k], &mut out) {
            proof { lemma_lower_all_none(sv, k + 1); }
            return Err(Error::SimpleError { message: String::from_str("Instruction operands not supported in assembly") });
        }
        k = k + 1;
    }
    assert(sv.subrange(0, instructions@.len() as int) =~= sv);
    Ok(out)
}

/// The instructions in x86's two-operand forms, in order: a three-operand operation
/// works in place where a source is its destination, goes through `rax` where a
/// subtraction's second source is, and otherwise copies its first source into the
/// destination first; a division goes through `rax` and `rdx`, saving `rdx` unless it
/// receives the remainder.
pub fn to_assembly_instructions(instructions: &Vec<Instruction>) -> (r: Vec<AssemblyInstruction>)
    requires
        lower_all(minstrs_view(instructions@)) is Some,
    ensures
        lower_all(minstrs_view(instructions@)) == Some(asms_view(r@)),
{
    match try_to_assembly_instructions(instructions) {
        Ok(v) => v,
        Err(_) => Vec::new(),
    }
}

} // verus!
