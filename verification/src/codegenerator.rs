//! Machine instructions for x86-64 and their generation from three-address code, given
//! a register for each variable.
use vstd::prelude::*;
use crate::tokenizer::Error;
use crate::tac::TacInstruction;
use crate::tac::TacInstrView;
use crate::tac::TacValue;
use crate::tac::TacValueView;
use crate::tac::BinOp;
use crate::tac::UnOp;
use crate::tac::instrs_view;
use crate::tac::instr_view;
use crate::tac::value_view;
use crate::namesets::name_set;
use crate::text::concat;
use crate::text::nat_digits;
use crate::text::numbered_name;
use crate::parser::strings_view;
use crate::registerallocation::interferencegraph::lives_view;

verus! {

/// The general-purpose registers with classic names.
#[derive(PartialEq, Eq, Structural, Clone, Copy, Debug, Hash)]
pub enum RegisterType {
    RAX,
    RBX,
    RCX,
    RDX,
    RSI,
    RDI,
    RSP,
    RBP,
}

/// The width a register is used at.
#[derive(PartialEq, Eq, Structural, Clone, Copy, Debug, Hash)]
pub enum RegisterSize {
    Byte,
    Word,
    DoubleWord,
    QuadWord,
}

/// A register: a classic one or one of `r8` to `r15`, by number, at a width.
#[derive(Clone, Copy, Debug, Eq)]
pub enum Register {
    General(RegisterType, RegisterSize),
    Extended(u8, RegisterSize),
}

/// Whether two registers are the same register, whatever the width.
pub open spec fn same_register(a: Register, b: Register) -> bool {
    match (a, b) {
        (Register::General(t1, _), Register::General(t2, _)) => t1 == t2,
        (Register::Extended(n1, _), Register::Extended(n2, _)) => n1 == n2,
        _ => false,
    }
}

impl PartialEq for Register {
    fn eq(&self, other: &Self) -> (r: bool) {
        match (self, other) {
            (Register::General(t1, _), Register::General(t2, _)) => *t1 == *t2,
            (Register::Extended(n1, _), Register::Extended(n2, _)) => *n1 == *n2,
            _ => false,
        }
    }
}

impl vstd::std_specs::cmp::PartialEqSpecImpl for Register {
    open spec fn obeys_eq_spec() -> bool {
        true
    }

    open spec fn eq_spec(&self, other: &Self) -> bool {
        same_register(*self, *other)
    }
}

/// An operand of a machine instruction.
#[derive(Debug, PartialEq)]
pub enum Argument {
    Register(Register),
    Immediate(i64),
    Label(String),
    /// A fixed address, such as `[8]`.
    MemoryAddressDirect(u64),
    /// The address held in a register, such as `[rbx]`.
    MemoryAddressRegister(Register),
}

/// A machine instruction, with three operands where x86 has two: a destination and two
/// sources.
#[derive(Debug, PartialEq)]
pub enum Instruction {
    Mov(Argument, Argument),
    Add(Argument, Argument, Argument),
    Sub(Argument, Argument, Argument),
    Mul(Argument, Argument, Argument),
    /// Quotient destination, remainder destination, dividend, divisor.
    Div(Argument, Argument, Argument, Argument),
    Xor(Argument, Argument, Argument),
    And(Argument, Argument, Argument),
    Or(Argument, Argument, Argument),
    Not(Argument, Argument),
    Cmp(Argument, Argument),
    Jmp(String),
    Je(String),
    Jne(String),
    Jg(String),
    Jge(String),
    Jl(String),
    Jle(String),
    Ret,
    Push(Argument),
    Pop(Argument),
    Label(String),
    /// A call of an imported function, by name.
    ExternCall(String),
    Call(String),
    Nop,
    ProgramStart,
}

/// The mathematical content of an operand.
pub enum ArgView {
    Register(Register),
    Immediate(i64),
    Label(Seq<char>),
    MemoryAddressDirect(u64),
    MemoryAddressRegister(Register),
}

/// The mathematical content of an instruction.
pub enum InstrView {
    Mov(ArgView, ArgView),
    Add(ArgView, ArgView, ArgView),
    Sub(ArgView, ArgView, ArgView),
    Mul(ArgView, ArgView, ArgView),
    Div(ArgView, ArgView, ArgView, ArgView),
    Xor(ArgView, ArgView, ArgView),
    And(ArgView, ArgView, ArgView),
    Or(ArgView, ArgView, ArgView),
    Not(ArgView, ArgView),
    Cmp(ArgView, ArgView),
    Jmp(Seq<char>),
    Je(Seq<char>),
    Jne(Seq<char>),
    Jg(Seq<char>),
    Jge(Seq<char>),
    Jl(Seq<char>),
    Jle(Seq<char>),
    Ret,
    Push(ArgView),
    Pop(ArgView),
    Label(Seq<char>),
    ExternCall(Seq<char>),
    Call(Seq<char>),
    Nop,
    ProgramStart,
}

/// The view of an operand.
pub open spec fn arg_view(a: Argument) -> ArgView {
    match a {
        Argument::Register(r) => ArgView::Register(r),
        Argument::Immediate(i) => ArgView::Immediate(i),
        Argument::Label(s) => ArgView::Label(s@),
        Argument::MemoryAddressDirect(m) => ArgView::MemoryAddressDirect(m),
        Argument::MemoryAddressRegister(r) => ArgView::MemoryAddressRegister(r),
    }
}

/// The view of an instruction.
pub open spec fn minstr_view(i: Instruction) -> InstrView {
    match i {
        Instruction::Mov(a, b) => InstrView::Mov(arg_view(a), arg_view(b)),
        Instruction::Add(a, b, c) => InstrView::Add(arg_view(a), arg_view(b), arg_view(c)),
        Instruction::Sub(a, b, c) => InstrView::Sub(arg_view(a), arg_view(b), arg_view(c)),
        Instruction::Mul(a, b, c) => InstrView::Mul(arg_view(a), arg_view(b), arg_view(c)),
        Instruction::Div(a, b, c, d) => InstrView::Div(arg_view(a), arg_view(b), arg_view(c), arg_view(d)),
        Instruction::Xor(a, b, c) => InstrView::Xor(arg_view(a), arg_view(b), arg_view(c)),
        Instruction::And(a, b, c) => InstrView::And(arg_view(a), arg_view(b), arg_view(c)),
        Instruction::Or(a, b, c) => InstrView::Or(arg_view(a), arg_view(b), arg_view(c)),
        Instruction::Not(a, b) => InstrView::Not(arg_view(a), arg_view(b)),
        Instruction::Cmp(a, b) => InstrView::Cmp(arg_view(a), arg_view(b)),
        Instruction::Jmp(l) => InstrView::Jmp(l@),
        Instruction::Je(l) => InstrView::Je(l@),
        Instruction::Jne(l) => InstrView::Jne(l@),
        Instruction::Jg(l) => InstrView::Jg(l@),
        Instruction::Jge(l) => InstrView::Jge(l@),
        Instruction::Jl(l) => InstrView::Jl(l@),
        Instruction::Jle(l) => InstrView::Jle(l@),
        Instruction::Ret => InstrView::Ret,
        Instruction::Push(a) => InstrView::Push(arg_view(a)),
        Instruction::Pop(a) => InstrView::Pop(arg_view(a)),
        Instruction::Label(l) => InstrView::Label(l@),
        Instruction::ExternCall(l) => InstrView::ExternCall(l@),
        Instruction::Call(l) => InstrView::Call(l@),
        Instruction::Nop => InstrView::Nop,
        Instruction::ProgramStart => InstrView::ProgramStart,
    }
}

/// The views of instructions.
pub open spec fn minstrs_view(s: Seq<Instruction>) -> Seq<InstrView> {
    s.map_values(|i: Instruction| minstr_view(i))
}

/// A 64-bit register.
pub open spec fn q(t: RegisterType) -> Register {
    Register::General(t, RegisterSize::QuadWord)
}

/// A 64-bit numbered register.
pub open spec fn qx(n: u8) -> Register {
    Register::Extended(n, RegisterSize::QuadWord)
}

/// The register of an allocation number: 0 to 10 are the registers handed out to
/// variables, and -1 to -5 stand for `rax`, `rsp`, `rbp`, `r11` and `r15`.
pub open spec fn register_of(n: isize) -> Option<Register> {
    if n == 0 { Some(q(RegisterType::RCX)) }
    else if n == 1 { Some(q(RegisterType::RDX)) }
    else if n == 2 { Some(q(RegisterType::RSI)) }
    else if n == 3 { Some(q(RegisterType::RDI)) }
    else if n == 4 { Some(qx(8)) }
    else if n == 5 { Some(qx(9)) }
    else if n == 6 { Some(qx(10)) }
    else if n == 7 { Some(q(RegisterType::RBX)) }
    else if n == 8 { Some(qx(12)) }
    else if n == 9 { Some(qx(13)) }
    else if n == 10 { Some(qx(14)) }
    else if n == -1 { Some(q(RegisterType::RAX)) }
    else if n == -2 { Some(q(RegisterType::RSP)) }
    else if n == -3 { Some(q(RegisterType::RBP)) }
    else if n == -4 { Some(qx(11)) }
    else if n == -5 { Some(qx(15)) }
    else { None }
}

/// The allocation number of a register, where it has one.
pub open spec fn number_of(r: Register) -> Option<isize> {
    match r {
        Register::General(t, _) => Some(match t {
            RegisterType::RCX => 0isize,
            RegisterType::RDX => 1,
            RegisterType::RSI => 2,
            RegisterType::RDI => 3,
            RegisterType::RBX => 7,
            RegisterType::RAX => -1isize,
            RegisterType::RSP => -2isize,
            RegisterType::RBP => -3isize,
        }),
        Register::Extended(n, _) => if n == 8 { Some(4) }
            else if n == 9 { Some(5) }
            else if n == 10 { Some(6) }
            else if n == 11 { Some(-4isize) }
            else if n == 12 { Some(8) }
            else if n == 13 { Some(9) }
            else if n == 14 { Some(10) }
            else if n == 15 { Some(-5isize) }
            else { None },
    }
}

fn to_register(n: isize) -> (r: Register)
    requires
        register_of(n) is Some,
    ensures
        r == register_of(n).unwrap(),
{
    match n {
        0 => Register::General(RegisterType::RCX, RegisterSize::QuadWord),
        1 => Register::General(RegisterType::RDX, RegisterSize::QuadWord),
        2 => Register::General(RegisterType::RSI, RegisterSize::QuadWord),
        3 => Register::General(RegisterType::RDI, RegisterSize::QuadWord),
        4 => Register::Extended(8, RegisterSize::QuadWord),
        5 => Register::Extended(9, RegisterSize::QuadWord),
        6 => Register::Extended(10, RegisterSize::QuadWord),
        7 => Register::General(RegisterType::RBX, RegisterSize::QuadWord),
        8 => Register::Extended(12, RegisterSize::QuadWord),
        9 => Register::Extended(13, RegisterSize::QuadWord),
        10 => Register::Extended(14, RegisterSize::QuadWord),
        -1 => Register::General(RegisterType::RAX, RegisterSize::QuadWord),
        -2 => Register::General(RegisterType::RSP, RegisterSize::QuadWord),
        -3 => Register::General(RegisterType::RBP, RegisterSize::QuadWord),
        -4 => Register::Extended(11, RegisterSize::QuadWord),
        _ => Register::Extended(15, RegisterSize::QuadWord),
    }
}

/// The allocation number of a register; only `r8` to `r15` among the numbered
/// registers have one.
pub fn from_register(register: &Register) -> (r: isize)
    requires
        number_of(*register) is Some,
    ensures
        r == number_of(*register).unwrap(),
{
    match register {
        Register::General(t, _) => match t {
            RegisterType::RCX => 0,
            RegisterType::RDX => 1,
            RegisterType::RSI => 2,
            RegisterType::RDI => 3,
            RegisterType::RBX => 7,
            RegisterType::RAX => -1,
            RegisterType::RSP => -2,
            RegisterType::RBP => -3,
        },
        Register::Extended(n, _) => {
            if *n == 8 { 4 }
            else if *n == 9 { 5 }
            else if *n == 10 { 6 }
            else if *n == 11 { -4 }
            else if *n == 12 { 8 }
            else if *n == 13 { 9 }
            else if *n == 14 { 10 }
            else { -5 }
        },
    }
}

/// Whether a callee may overwrite a register: `rax`, `rcx`, `rdx`, `rsi`, `rdi` and `r8`
/// to `r11`.
pub open spec fn caller_saved(r: Register) -> bool {
    match r {
        Register::General(t, _) => t == RegisterType::RAX || t == RegisterType::RCX || t == RegisterType::RDX
            || t == RegisterType::RSI || t == RegisterType::RDI,
        Register::Extended(n, _) => 8 <= n <= 11,
    }
}

fn is_caller_saved(r: &Register) -> (b: bool)
    ensures
        b == caller_saved(*r),
{
    match r {
        Register::General(t, _) => match t {
            RegisterType::RAX | RegisterType::RCX | RegisterType::RDX | RegisterType::RSI | RegisterType::RDI => true,
            _ => false,
        },
        Register::Extended(n, _) => 8 <= *n && *n <= 11,
    }
}

/// Allocation numbers and registers correspond: each register of a number has that
/// number back, whatever its width.
pub proof fn lemma_register_numbers(n: isize)
    requires
        register_of(n) is Some,
    ensures
        number_of(register_of(n).unwrap()) == Some(n),
{
}

/// The allocation number of a variable: its last entry.
pub open spec fn alloc_lookup(a: Seq<(String, isize)>, x: Seq<char>) -> Option<isize>
    decreases a.len(),
{
    if a.len() == 0 {
        None
    } else if a.last().0@ == x {
        Some(a.last().1)
    } else {
        alloc_lookup(a.drop_last(), x)
    }
}

/// Whether every allocation number names a register.
pub open spec fn alloc_valid(a: Seq<(String, isize)>) -> bool {
    forall|i: int| 0 <= i < a.len() ==> (#[trigger] register_of(a[i].1)) is Some
}

/// The register of a variable.
pub open spec fn var_register(a: Seq<(String, isize)>, x: Seq<char>) -> Option<Register> {
    match alloc_lookup(a, x) {
        Some(n) => register_of(n),
        None => None,
    }
}

/// The machine operand of a three-address operand; strings have none.
pub open spec fn operand(a: Seq<(String, isize)>, v: TacValueView) -> Option<ArgView> {
    match v {
        TacValueView::Constant(c) => Some(ArgView::Immediate(c as i64)),
        TacValueView::Variable(x) => match var_register(a, x) {
            Some(r) => Some(ArgView::Register(r)),
            None => None,
        },
        TacValueView::StringLiteral(_) => None,
    }
}

/// The register the `i`-th argument of a call arrives in, for the first four.
pub open spec fn argument_register(i: int) -> Register {
    if i == 0 { q(RegisterType::RCX) } else if i == 1 { q(RegisterType::RDX) } else if i == 2 { qx(8) } else { qx(9) }
}

/// Moves of each parameter from where it arrives to its register: the first four from
/// registers, the others from the stack, 8 bytes apart.
pub open spec fn param_moves(ps: Seq<Seq<char>>, a: Seq<(String, isize)>) -> Option<Seq<InstrView>>
    decreases ps.len(),
{
    if ps.len() == 0 {
        Some(seq![])
    } else {
        let i = ps.len() - 1;
        match (param_moves(ps.drop_last(), a), var_register(a, ps.last())) {
            (Some(ms), Some(r)) => if i >= 4 && (i - 4) * 8 > u64::MAX {
                None
            } else {
                Some(ms.push(InstrView::Mov(
                    ArgView::Register(r),
                    if i < 4 { ArgView::Register(argument_register(i)) } else { ArgView::MemoryAddressDirect(((i - 4) * 8) as u64) },
                )))
            },
            _ => None,
        }
    }
}

/// The caller-saved registers of the variables live before a call, each once, in the
/// order the variables are listed.
pub open spec fn saved_from(names: Seq<String>, a: Seq<(String, isize)>) -> Seq<Register>
    decreases names.len(),
{
    if names.len() == 0 {
        seq![]
    } else {
        let s = saved_from(names.drop_last(), a);
        match var_register(a, names.last()@) {
            Some(r) => if caller_saved(r) && !s.contains(r) { s.push(r) } else { s },
            None => s,
        }
    }
}

/// The registers a call at position `k` saves: none for the first instruction or where
/// no liveness is known.
pub open spec fn saved_registers(live: Seq<Vec<String>>, k: int, a: Seq<(String, isize)>) -> Seq<Register> {
    if 0 < k < live.len() { saved_from(live[k]@, a) } else { seq![] }
}

/// The code of a call: save the live caller-saved registers, reserve the 40 bytes of
/// shadow space, call, release them, restore the registers in reverse order and take
/// the result from `rax`.
pub open spec fn call_code(f: Seq<char>, ret: Option<Seq<char>>, saved: Seq<Register>, a: Seq<(String, isize)>, external: bool) -> Option<Seq<InstrView>> {
    let ghost rsp = ArgView::Register(q(RegisterType::RSP));
    let pre = saved.map_values(|r: Register| InstrView::Push(ArgView::Register(r)))
        + seq![InstrView::Sub(rsp, rsp, ArgView::Immediate(40)), if external { InstrView::ExternCall(f) } else { InstrView::Call(f) }, InstrView::Add(rsp, rsp, ArgView::Immediate(40))]
        + saved.reverse().map_values(|r: Register| InstrView::Pop(ArgView::Register(r)));
    match ret {
        None => Some(pre),
        Some(d) => match var_register(a, d) {
            None => None,
            Some(r) => Some(pre.push(InstrView::Mov(ArgView::Register(r), ArgView::Register(q(RegisterType::RAX))))),
        },
    }
}

/// The machine instruction of an operation whose operands may be swapped.
pub open spec fn comm_instr(op: BinOp, d: ArgView, x: ArgView, y: ArgView) -> InstrView {
    match op {
        BinOp::Mul => InstrView::Mul(d, x, y),
        BinOp::And => InstrView::And(d, x, y),
        BinOp::Or => InstrView::Or(d, x, y),
        _ => InstrView::Add(d, x, y),
    }
}

/// The code of `d = x op y` for an operation whose operands may be swapped: a constant
/// first operand is swapped with a register second one; with two constants, other than
/// for an addition, the first is moved into the destination first.
pub open spec fn comm_code(op: BinOp, d: ArgView, x: ArgView, y: ArgView) -> Seq<InstrView> {
    match (x, y) {
        (ArgView::Immediate(_), ArgView::Register(_)) => seq![comm_instr(op, d, y, x)],
        (ArgView::Immediate(_), ArgView::Immediate(_)) => if op == BinOp::Add {
            seq![comm_instr(op, d, x, y)]
        } else {
            seq![InstrView::Mov(d, x), comm_instr(op, d, d, y)]
        },
        _ => seq![comm_instr(op, d, x, y)],
    }
}

/// The comparison that holds of `y` and `x` when `op` holds of `x` and `y`.
pub open spec fn mirrored(op: BinOp) -> BinOp {
    match op {
        BinOp::Lt => BinOp::Gt,
        BinOp::Le => BinOp::Ge,
        BinOp::Gt => BinOp::Lt,
        BinOp::Ge => BinOp::Le,
        _ => op,
    }
}

/// The jump taken when the comparison `op` does not hold.
pub open spec fn jump_unless(op: BinOp, l: Seq<char>) -> InstrView {
    match op {
        BinOp::Eq => InstrView::Jne(l),
        BinOp::Ne => InstrView::Je(l),
        BinOp::Lt => InstrView::Jge(l),
        BinOp::Le => InstrView::Jg(l),
        BinOp::Gt => InstrView::Jle(l),
        _ => InstrView::Jl(l),
    }
}

/// The label that ends the comparison at position `k`.
pub open spec fn compare_label(k: int) -> Seq<char> {
    "cmp_"@ + nat_digits(k as nat)
}

/// The code of `d = x op y` for a comparison at position `k`: compare (with a constant
/// first operand and a register second one swapped, and the comparison mirrored), set
/// `d` to 0, skip to the label unless the comparison holds, and set `d` to 1.
pub open spec fn compare_code(op: BinOp, d: ArgView, x: ArgView, y: ArgView, k: int) -> Seq<InstrView> {
    let swap = x is Immediate && y is Register;
    let a = if swap { y } else { x };
    let b = if swap { x } else { y };
    let c = if swap { mirrored(op) } else { op };
    seq![
        InstrView::Cmp(a, b),
        InstrView::Mov(d, ArgView::Immediate(0)),
        jump_unless(c, compare_label(k)),
        InstrView::Mov(d, ArgView::Immediate(1)),
        InstrView::Label(compare_label(k)),
    ]
}

/// The machine code of the instruction at position `k`; a machine instruction is passed
/// through. A jump on a false condition compares with 0; a comparison sets its
/// destination to 1 or 0; strings are supported nowhere.
pub open spec fn gen_instr(i: TacInstrView, k: int, a: Seq<(String, isize)>, live: Seq<Vec<String>>) -> Option<Seq<InstrView>> {
    match i {
        TacInstrView::Label(l) => Some(seq![InstrView::Label(l)]),
        TacInstrView::Goto(l) => Some(seq![InstrView::Jmp(l)]),
        TacInstrView::If(v, l) => match operand(a, v) {
            None => None,
            Some(o) => Some(seq![InstrView::Cmp(o, ArgView::Immediate(0)), InstrView::Je(l)]),
        },
        TacInstrView::FunctionLabel(name, ps) => match param_moves(ps, a) {
            None => None,
            Some(ms) => Some(seq![InstrView::Label(name)] + ms),
        },
        TacInstrView::Assign(d, v) => match (var_register(a, d), operand(a, v)) {
            (Some(r), Some(o)) => Some(seq![InstrView::Mov(ArgView::Register(r), o)]),
            _ => None,
        },
        TacInstrView::BinOp(d, l, op, r) => match (var_register(a, d), operand(a, l), operand(a, r)) {
            (Some(dr), Some(lo), Some(ro)) => {
                let dst = ArgView::Register(dr);
                match op {
                    BinOp::Add | BinOp::Mul | BinOp::And | BinOp::Or => Some(comm_code(op, dst, lo, ro)),
                    BinOp::Sub => Some(seq![InstrView::Sub(dst, lo, ro)]),
                    BinOp::Div => Some(seq![InstrView::Div(dst, ArgView::Register(q(RegisterType::RDX)), lo, ro)]),
                    _ => Some(compare_code(op, dst, lo, ro, k)),
                }
            },
            _ => None,
        },
        TacInstrView::UnaryOp(d, op, v) => match (var_register(a, d), operand(a, v)) {
            (Some(dr), Some(o)) => match op {
                UnOp::Neg => Some(seq![
                    InstrView::Mov(ArgView::Register(dr), o),
                    InstrView::Sub(ArgView::Register(dr), ArgView::Register(dr), ArgView::Immediate(0)),
                ]),
                UnOp::Not => Some(seq![InstrView::Not(ArgView::Register(dr), o)]),
            },
            _ => None,
        },
        TacInstrView::Return(v) => match v {
            None => Some(seq![InstrView::Ret]),
            Some(x) => match operand(a, x) {
                None => None,
                Some(o) => Some(seq![InstrView::Mov(ArgView::Register(q(RegisterType::RAX)), o), InstrView::Ret]),
            },
        },
        TacInstrView::Call(f, _, ret) => call_code(f, ret, saved_registers(live, k, a), a, false),
        TacInstrView::DirectInstruction(m) => Some(seq![m]),
    }
}

/// Whether a jump is taken once `cmp` compared the values `x` and `y`, as the processor
/// decides from the flags: `je` when they are equal, `jne` when they differ, `jg`,
/// `jge`, `jl` and `jle` by their signed order, `jmp` always; none for an instruction
/// that is no jump.
pub open spec fn taken_after_cmp(j: InstrView, x: int, y: int) -> Option<bool> {
    match j {
        InstrView::Jmp(_) => Some(true),
        InstrView::Je(_) => Some(x == y),
        InstrView::Jne(_) => Some(x != y),
        InstrView::Jg(_) => Some(x > y),
        InstrView::Jge(_) => Some(x >= y),
        InstrView::Jl(_) => Some(x < y),
        InstrView::Jle(_) => Some(x <= y),
        _ => None,
    }
}

/// The label a jump goes to.
pub open spec fn jump_target(j: InstrView) -> Option<Seq<char>> {
    match j {
        InstrView::Jmp(l) => Some(l),
        InstrView::Je(l) => Some(l),
        InstrView::Jne(l) => Some(l),
        InstrView::Jg(l) => Some(l),
        InstrView::Jge(l) => Some(l),
        InstrView::Jl(l) => Some(l),
        InstrView::Jle(l) => Some(l),
        _ => None,
    }
}

/// Whether a comparison operator holds of two values.
pub open spec fn comparison_holds(op: BinOp, x: int, y: int) -> bool {
    match op {
        BinOp::Eq => x == y,
        BinOp::Ne => x != y,
        BinOp::Lt => x < y,
        BinOp::Le => x <= y,
        BinOp::Gt => x > y,
        BinOp::Ge => x >= y,
        _ => false,
    }
}

/// Whether an operator is a comparison.
pub open spec fn is_comparison(op: BinOp) -> bool {
    op == BinOp::Eq || op == BinOp::Ne || op == BinOp::Lt || op == BinOp::Le || op == BinOp::Gt || op == BinOp::Ge
}

/// The code of `if v goto l`, which three-address code uses to skip a body when its
/// condition is false, compares the condition with 0 and jumps to `l` exactly when it is
/// 0: for every value of the condition, the jump is taken if and only if it is 0.
pub proof fn lemma_if_jumps_when_false(v: TacValueView, l: Seq<char>, k: int, a: Seq<(String, isize)>, live: Seq<Vec<String>>)
    requires
        operand(a, v) is Some,
    ensures
        gen_instr(TacInstrView::If(v, l), k, a, live) matches Some(s) && s.len() == 2
            && s[0] == InstrView::Cmp(operand(a, v)->0, ArgView::Immediate(0))
            && jump_target(s[1]) == Some(l)
            && forall|val: int| #[trigger] taken_after_cmp(s[1], val, 0) == Some(val == 0),
{
}

/// The code of `d = x op y` for a comparison sets `d` to 0, jumps past the setting of
/// `d` to 1 exactly when the comparison does not hold, and ends at the jump's label: for
/// all values of the operands, compared in their order or swapped, the jump is taken if
/// and only if `op` does not hold of them.
pub proof fn lemma_comparison_sets_flag(d: Seq<char>, x: TacValueView, op: BinOp, y: TacValueView, k: int, a: Seq<(String, isize)>, live: Seq<Vec<String>>)
    requires
        is_comparison(op),
        var_register(a, d) is Some,
        operand(a, x) is Some,
        operand(a, y) is Some,
    ensures
        ({
            let (dr, xo, yo) = (ArgView::Register(var_register(a, d)->0), operand(a, x)->0, operand(a, y)->0);
            gen_instr(TacInstrView::BinOp(d, x, op, y), k, a, live) matches Some(s)
                && s.len() == 5
                && s[1] == InstrView::Mov(dr, ArgView::Immediate(0))
                && s[3] == InstrView::Mov(dr, ArgView::Immediate(1))
                && jump_target(s[2]) is Some
                && s[4] == InstrView::Label(jump_target(s[2])->0)
                && ((s[0] == InstrView::Cmp(xo, yo)
                    && forall|vx: int, vy: int| #[trigger] taken_after_cmp(s[2], vx, vy) == Some(!comparison_holds(op, vx, vy)))
                || (s[0] == InstrView::Cmp(yo, xo)
                    && forall|vx: int, vy: int| #[trigger] taken_after_cmp(s[2], vy, vx) == Some(!comparison_holds(op, vx, vy))))
        }),
{
}

/// The value an operand has when the registers hold `regs`: a register's content or an
/// immediate.
pub open spec fn arg_value(regs: Map<Register, int>, x: ArgView) -> int {
    match x {
        ArgView::Register(r) => regs[r],
        ArgView::Immediate(i) => i as int,
        _ => 0,
    }
}

/// The registers after a move or an addition, subtraction or multiplication of integers
/// (reading the operands before the destination is written); other instructions leave
/// them as they are.
pub open spec fn step_regs(regs: Map<Register, int>, i: InstrView) -> Map<Register, int> {
    match i {
        InstrView::Mov(ArgView::Register(d), x) => regs.insert(d, arg_value(regs, x)),
        InstrView::Add(ArgView::Register(d), x, y) => regs.insert(d, arg_value(regs, x) + arg_value(regs, y)),
        InstrView::Sub(ArgView::Register(d), x, y) => regs.insert(d, arg_value(regs, x) - arg_value(regs, y)),
        InstrView::Mul(ArgView::Register(d), x, y) => regs.insert(d, arg_value(regs, x) * arg_value(regs, y)),
        _ => regs,
    }
}

/// The registers after running straight-line code.
pub open spec fn run_regs(regs: Map<Register, int>, s: Seq<InstrView>) -> Map<Register, int>
    decreases s.len(),
{
    if s.len() == 0 {
        regs
    } else {
        step_regs(run_regs(regs, s.drop_last()), s.last())
    }
}

/// The code of `d = x + y`, `d = x - y` and `d = x * y` leaves in `d`'s register the sum,
/// difference or product of the values the operands had before, whatever the registers
/// held; the code of `d = -v` leaves there the value of `v` (a subtraction of 0 after a
/// move).
pub proof fn lemma_arithmetic_code(d: Seq<char>, x: TacValueView, y: TacValueView, k: int, a: Seq<(String, isize)>, live: Seq<Vec<String>>, regs: Map<Register, int>)
    requires
        var_register(a, d) is Some,
        operand(a, x) is Some,
        operand(a, y) is Some,
    ensures
        ({
            let (dr, xv, yv) = (var_register(a, d)->0, arg_value(regs, operand(a, x)->0), arg_value(regs, operand(a, y)->0));
            &&& gen_instr(TacInstrView::BinOp(d, x, BinOp::Add, y), k, a, live) matches Some(s) && run_regs(regs, s)[dr] == xv + yv
            &&& gen_instr(TacInstrView::BinOp(d, x, BinOp::Sub, y), k, a, live) matches Some(s) && run_regs(regs, s)[dr] == xv - yv
            &&& gen_instr(TacInstrView::BinOp(d, x, BinOp::Mul, y), k, a, live) matches Some(s) && run_regs(regs, s)[dr] == xv * yv
            &&& gen_instr(TacInstrView::UnaryOp(d, UnOp::Neg, x), k, a, live) matches Some(s) && run_regs(regs, s)[dr] == xv
        }),
{
    reveal_with_fuel(run_regs, 3);
    let dr = var_register(a, d)->0;
    let (xo, yo) = (operand(a, x)->0, operand(a, y)->0);
    let dst = ArgView::Register(dr);
    assert(arg_value(regs, xo) * arg_value(regs, yo) == arg_value(regs, yo) * arg_value(regs, xo)) by (nonlinear_arith);
    let s1 = comm_code(BinOp::Add, dst, xo, yo);
    let s2 = comm_code(BinOp::Mul, dst, xo, yo);
    let s3 = seq![InstrView::Sub(dst, xo, yo)];
    let s4 = seq![InstrView::Mov(dst, xo), InstrView::Sub(dst, dst, ArgView::Immediate(0))];
    assert(run_regs(regs, s3) == step_regs(run_regs(regs, s3.drop_last()), s3.last()));
    assert(s3.drop_last() =~= Seq::<InstrView>::empty());
    assert(s4.drop_last() =~= seq![InstrView::Mov(dst, xo)]);
    assert(s4.drop_last().drop_last() =~= Seq::<InstrView>::empty());
    if s1.len() == 1 {
        assert(s1.drop_last() =~= Seq::<InstrView>::empty());
    } else {
        assert(s1.drop_last() =~= seq![InstrView::Mov(dst, xo)]);
        assert(s1.drop_last().drop_last() =~= Seq::<InstrView>::empty());
    }
    if s2.len() == 1 {
        assert(s2.drop_last() =~= Seq::<InstrView>::empty());
    } else {
        assert(s2.drop_last() =~= seq![InstrView::Mov(dst, xo)]);
        assert(s2.drop_last().drop_last() =~= Seq::<InstrView>::empty());
    }
    assert(run_regs(regs, s1)[dr] == arg_value(regs, xo) + arg_value(regs, yo));
    assert(run_regs(regs, s2)[dr] == arg_value(regs, xo) * arg_value(regs, yo));
    assert(run_regs(regs, s3)[dr] == arg_value(regs, xo) - arg_value(regs, yo));
    assert(run_regs(regs, s4)[dr] == arg_value(regs, xo));
}

/// The code of `d = x` leaves in `d`'s register the value `x` had, and the code of
/// `return x` leaves it in `rax` and then returns.
pub proof fn lemma_assign_and_return_code(d: Seq<char>, x: TacValueView, k: int, a: Seq<(String, isize)>, live: Seq<Vec<String>>, regs: Map<Register, int>)
    requires
        var_register(a, d) is Some,
        operand(a, x) is Some,
    ensures
        ({
            let (dr, xv) = (var_register(a, d)->0, arg_value(regs, operand(a, x)->0));
            &&& gen_instr(TacInstrView::Assign(d, x), k, a, live) matches Some(s) && run_regs(regs, s)[dr] == xv
            &&& gen_instr(TacInstrView::Return(Some(x)), k, a, live) matches Some(s)
                && run_regs(regs, s)[q(RegisterType::RAX)] == xv && s.last() == InstrView::Ret
        }),
{
    reveal_with_fuel(run_regs, 3);
    let xo = operand(a, x)->0;
    let dr = var_register(a, d)->0;
    let s1 = seq![InstrView::Mov(ArgView::Register(dr), xo)];
    let s2 = seq![InstrView::Mov(ArgView::Register(q(RegisterType::RAX)), xo), InstrView::Ret];
    assert(s1.drop_last() =~= Seq::<InstrView>::empty());
    assert(s2.drop_last() =~= seq![InstrView::Mov(ArgView::Register(q(RegisterType::RAX)), xo)]);
    assert(s2.drop_last().drop_last() =~= Seq::<InstrView>::empty());
}

/// The machine code of a sequence of instructions, in order.
pub open spec fn gen_seq(code: Seq<TacInstrView>, a: Seq<(String, isize)>, live: Seq<Vec<String>>) -> Option<Seq<InstrView>>
    decreases code.len(),
{
    if code.len() == 0 {
        Some(seq![])
    } else {
        match (gen_seq(code.drop_last(), a, live), gen_instr(code.last(), code.len() - 1, a, live)) {
            (Some(s), Some(t)) => Some(s + t),
            _ => None,
        }
    }
}

/// How an instruction moves the stack pointer, counted as the code does: a push by -8,
/// a pop by 8, reserving `n` bytes by `n` and releasing them by `-n`.
pub open spec fn stack_effect(i: InstrView) -> int {
    match i {
        InstrView::Push(_) => -8,
        InstrView::Pop(_) => 8,
        InstrView::Sub(ArgView::Register(Register::General(RegisterType::RSP, RegisterSize::QuadWord)), ArgView::Register(Register::General(RegisterType::RSP, RegisterSize::QuadWord)), ArgView::Immediate(n)) => n as int,
        InstrView::Add(ArgView::Register(Register::General(RegisterType::RSP, RegisterSize::QuadWord)), ArgView::Register(Register::General(RegisterType::RSP, RegisterSize::QuadWord)), ArgView::Immediate(n)) => -n,
        _ => 0,
    }
}

/// Whether an instruction is a call.
pub open spec fn is_call(i: InstrView) -> bool {
    i is Call || i is ExternCall
}

/// The code with each call whose stack offset is not a multiple of 16 bracketed by
/// moving the stack pointer down to the next multiple and back; `off` is the offset
/// before the code.
pub open spec fn align_from(s: Seq<InstrView>, off: int) -> Seq<InstrView>
    decreases s.len(),
{
    if s.len() == 0 {
        seq![]
    } else {
        let i = s[0];
        let rsp = ArgView::Register(q(RegisterType::RSP));
        let adj = ArgView::Immediate((16 - off % 16) as i64);
        let head = if is_call(i) && off % 16 != 0 {
            seq![InstrView::Sub(rsp, rsp, adj), i, InstrView::Add(rsp, rsp, adj)]
        } else {
            seq![i]
        };
        head + align_from(s.drop_first(), off + stack_effect(i))
    }
}

/// The machine code of a program: its instructions, then the exit with code 0, with
/// the stack aligned at every call.
pub open spec fn generated(code: Seq<TacInstrView>, a: Seq<(String, isize)>, live: Seq<Vec<String>>) -> Option<Seq<InstrView>> {
    match gen_seq(code, a, live) {
        None => None,
        Some(s) => Some(align_from(
            s + seq![InstrView::Mov(ArgView::Register(q(RegisterType::RCX)), ArgView::Immediate(0)), InstrView::ExternCall("ExitProcess"@)],
            0,
        )),
    }
}

/// Whether a register is used at its full 64 bits.
pub open spec fn quad(r: Register) -> bool {
    match r {
        Register::General(_, sz) => sz == RegisterSize::QuadWord,
        Register::Extended(_, sz) => sz == RegisterSize::QuadWord,
    }
}

fn reg_lookup(a: &Vec<(String, isize)>, x: &String) -> (r: Option<isize>)
    ensures
        r == alloc_lookup(a@, x@),
        r matches Some(n) ==> exists|i: int| 0 <= i < a@.len() && a@[i].1 == n,
{
    let mut i = a.len();
    assert(a@.subrange(0, i as int) =~= a@);
    while i > 0
        invariant
            i <= a@.len(),
            alloc_lookup(a@, x@) == alloc_lookup(a@.subrange(0, i as int), x@),
        decreases i,
    {
        let ghost sub = a@.subrange(0, i as int);
        assert(sub.last() == a@[i - 1]);
        if a[i - 1].0 == *x {
            return Some(a[i - 1].1);
        }
        assert(sub.drop_last() =~= a@.subrange(0, i - 1));
        i = i - 1;
    }
    None
}

fn missing_variable(x: &String) -> (e: Error)
    ensures
        e matches Error::SimpleError { message } && message@ == "Variable "@ + x@ + " not found in register allocation"@,
{
    let m = concat("Variable ", x.as_str());
    Error::SimpleError { message: concat(m.as_str(), " not found in register allocation") }
}

fn unsupported(what: &str) -> (e: Error)
    ensures
        e matches Error::SimpleError { message } && message@ == what@,
{
    Error::SimpleError { message: String::from_str(what) }
}

fn var_reg(a: &Vec<(String, isize)>, x: &String) -> (r: Result<Register, Error>)
    requires
        alloc_valid(a@),
    ensures
        match var_register(a@, x@) {
            None => r matches Err(e) && e is SimpleError,
            Some(g) => r == Ok::<Register, Error>(g) && quad(g),
        },
{
    match reg_lookup(a, x) {
        None => Err(missing_variable(x)),
        Some(n) => {
            proof {
                let i = choose|i: int| 0 <= i < a@.len() && a@[i].1 == n;
                assert(register_of(a@[i].1) is Some);
            }
            Ok(to_register(n))
        },
    }
}

fn operand_exec(a: &Vec<(String, isize)>, v: &TacValue) -> (r: Result<Argument, Error>)
    requires
        alloc_valid(a@),
    ensures
        match operand(a@, value_view(*v)) {
            None => r matches Err(e) && e is SimpleError,
            Some(o) => r matches Ok(x) && arg_view(x) == o,
        },
{
    match v {
        TacValue::Constant(c) => Ok(Argument::Immediate(*c as i64)),
        TacValue::Variable(x) => match var_reg(a, x) {
            Ok(g) => Ok(Argument::Register(g)),
            Err(e) => Err(e),
        },
        TacValue::StringLiteral(_) => Err(unsupported("Unsupported string operand in code generation")),
    }
}

fn emit(out: &mut Vec<Instruction>, i: Instruction)
    ensures
        minstrs_view(final(out)@) == minstrs_view(old(out)@).push(minstr_view(i)),
{
    out.push(i);
    assert(minstrs_view(out@) =~= minstrs_view(old(out)@).push(minstr_view(i)));
}

fn reg_arg(t: RegisterType) -> (r: Argument)
    ensures
        arg_view(r) == ArgView::Register(q(t)),
{
    Argument::Register(Register::General(t, RegisterSize::QuadWord))
}

fn gen_params(ps: &Vec<String>, a: &Vec<(String, isize)>, out: &mut Vec<Instruction>) -> (r: Result<(), Error>)
    requires
        alloc_valid(a@),
    ensures
        match param_moves(crate::parser::strings_view(ps@), a@) {
            None => r matches Err(e) && e is SimpleError,
            Some(ms) => r is Ok && minstrs_view(final(out)@) == minstrs_view(old(out)@) + ms,
        },
{
    let ghost sv = crate::parser::strings_view(ps@);
    let mut i: usize = 0;
    assert(minstrs_view(out@) =~= minstrs_view(old(out)@) + seq![]);
    while i < ps.len()
        invariant
            i <= ps@.len(),
            sv == crate::parser::strings_view(ps@),
            alloc_valid(a@),
            param_moves(sv.subrange(0, i as int), a@) matches Some(ms) && minstrs_view(out@) == minstrs_view(old(out)@) + ms,
        decreases ps@.len() - i,
    {
        assert(sv.subrange(0, i + 1).drop_last() =~= sv.subrange(0, i as int));
        assert(sv.subrange(0, i + 1).last() == ps@[i as int]@);
        let dest = match var_reg(a, &ps[i]) {
            Ok(g) => g,
            Err(e) => {
                proof { lemma_param_moves_none(sv, a@, i + 1); }
                return Err(e);
            },
        };
        let src = if i < 4 {
            let g = if i == 0 {
                Register::General(RegisterType::RCX, RegisterSize::QuadWord)
            } else if i == 1 {
                Register::General(RegisterType::RDX, RegisterSize::QuadWord)
            } else if i == 2 {
                Register::Extended(8, RegisterSize::QuadWord)
            } else {
                Register::Extended(9, RegisterSize::QuadWord)
            };
            Argument::Register(g)
        } else {
            let k = (i - 4) as u64;
            if k > u64::MAX / 8 {
                proof { lemma_param_moves_none(sv, a@, i + 1); }
                return Err(unsupported("Too many function parameters"));
            }
            Argument::MemoryAddressDirect(k * 8)
        };
        emit(out, Instruction::Mov(Argument::Register(dest), src));
        i = i + 1;
    }
    assert(sv.subrange(0, ps@.len() as int) =~= sv);
    Ok(())
}

proof fn lemma_param_moves_none(s: Seq<Seq<char>>, a: Seq<(String, isize)>, k: int)
    requires
        0 <= k <= s.len(),
        param_moves(s.subrange(0, k), a) is None,
    ensures
        param_moves(s, a) is None,
    decreases s.len() - k,
{
    if k < s.len() {
        assert(s.drop_last().subrange(0, k) =~= s.subrange(0, k));
        lemma_param_moves_none(s.drop_last(), a, k);
    } else {
        assert(s.subrange(0, k) =~= s);
    }
}

proof fn lemma_quad_same(a: Register, b: Register)
    requires
        quad(a),
        quad(b),
    ensures
        same_register(a, b) == (a == b),
{
}

fn contains_register(v: &Vec<Register>, g: &Register) -> (r: bool)
    requires
        quad(*g),
        forall|j: int| 0 <= j < v@.len() ==> quad(#[trigger] v@[j]),
    ensures
        r == v@.contains(*g),
{
    let mut j: usize = 0;
    while j < v.len()
        invariant
            j <= v@.len(),
            quad(*g),
            forall|t: int| 0 <= t < v@.len() ==> quad(#[trigger] v@[t]),
            forall|t: int| 0 <= t < j ==> v@[t] != *g,
        decreases v@.len() - j,
    {
        proof { lemma_quad_same(v@[j as int], *g); }
        if v[j] == *g {
            return true;
        }
        j = j + 1;
    }
    false
}

fn saved_exec(live: &Vec<Vec<String>>, k: usize, a: &Vec<(String, isize)>) -> (r: Vec<Register>)
    requires
        alloc_valid(a@),
    ensures
        r@ == saved_registers(live@, k as int, a@),
        forall|j: int| 0 <= j < r@.len() ==> quad(#[trigger] r@[j]),
{
    let mut r: Vec<Register> = Vec::new();
    if 0 < k && k < live.len() {
        let names = &live[k];
        let mut i: usize = 0;
        assert(names@.subrange(0, 0) =~= Seq::<String>::empty());
        while i < names.len()
            invariant
                i <= names@.len(),
                alloc_valid(a@),
                r@ == saved_from(names@.subrange(0, i as int), a@),
                forall|j: int| 0 <= j < r@.len() ==> quad(#[trigger] r@[j]),
            decreases names@.len() - i,
        {
            assert(names@.subrange(0, i + 1).drop_last() =~= names@.subrange(0, i as int));
            match var_reg(a, &names[i]) {
                Ok(g) => {
                    if is_caller_saved(&g) && !contains_register(&r, &g) {
                        r.push(g);
                    }
                },
                Err(_) => {},
            }
            i = i + 1;
        }
        assert(names@.subrange(0, names@.len() as int) =~= names@);
    }
    r
}

fn call_exec(f: &String, ret: &Option<String>, k: usize, a: &Vec<(String, isize)>, live: &Vec<Vec<String>>, out: &mut Vec<Instruction>) -> (r: Result<(), Error>)
    requires
        alloc_valid(a@),
    ensures
        match call_code(f@, match ret { Some(x) => Some(x@), None => None }, saved_registers(live@, k as int, a@), a@, false) {
            None => r matches Err(e) && e is SimpleError,
            Some(t) => r is Ok && minstrs_view(final(out)@) == minstrs_view(old(out)@) + t,
        },
{
    let saved = saved_exec(live, k, a);
    let ghost sv = saved@;
    let ghost base = minstrs_view(out@);
    let mut i: usize = 0;
    assert(sv.subrange(0, 0).map_values(|r: Register| InstrView::Push(ArgView::Register(r))) =~= Seq::<InstrView>::empty());
    assert(minstrs_view(out@) =~= base + seq![]);
    while i < saved.len()
        invariant
            i <= sv.len(),
            sv == saved@,
            minstrs_view(out@) == base + sv.subrange(0, i as int).map_values(|r: Register| InstrView::Push(ArgView::Register(r))),
        decreases sv.len() - i,
    {
        emit(out, Instruction::Push(Argument::Register(saved[i])));
        assert(sv.subrange(0, i + 1).map_values(|r: Register| InstrView::Push(ArgView::Register(r)))
            =~= sv.subrange(0, i as int).map_values(|r: Register| InstrView::Push(ArgView::Register(r))).push(InstrView::Push(ArgView::Register(sv[i as int]))));
        i = i + 1;
    }
    assert(sv.subrange(0, sv.len() as int) =~= sv);
    emit(out, Instruction::Sub(reg_arg(RegisterType::RSP), reg_arg(RegisterType::RSP), Argument::Immediate(40)));
    emit(out, Instruction::Call(f.clone()));
    emit(out, Instruction::Add(reg_arg(RegisterType::RSP), reg_arg(RegisterType::RSP), Argument::Immediate(40)));
    let ghost mid = minstrs_view(out@);
    let ghost rsp = ArgView::Register(q(RegisterType::RSP));
    assert(mid == base + sv.map_values(|r: Register| InstrView::Push(ArgView::Register(r)))
        + seq![InstrView::Sub(rsp, rsp, ArgView::Immediate(40)), InstrView::Call(f@), InstrView::Add(rsp, rsp, ArgView::Immediate(40))]);
    let mut j: usize = saved.len();
    assert(sv.reverse().subrange(0, 0).map_values(|r: Register| InstrView::Pop(ArgView::Register(r))) =~= Seq::<InstrView>::empty());
    assert(minstrs_view(out@) =~= mid + seq![]);
    while j > 0
        invariant
            j <= sv.len(),
            sv == saved@,
            minstrs_view(out@) == mid + sv.reverse().subrange(0, sv.len() - j).map_values(|r: Register| InstrView::Pop(ArgView::Register(r))),
        decreases j,
    {
        emit(out, Instruction::Pop(Argument::Register(saved[j - 1])));
        assert(sv.reverse()[sv.len() - j] == sv[j - 1]);
        assert(sv.reverse().subrange(0, sv.len() - j + 1).map_values(|r: Register| InstrView::Pop(ArgView::Register(r)))
            =~= sv.reverse().subrange(0, sv.len() - j).map_values(|r: Register| InstrView::Pop(ArgView::Register(r))).push(InstrView::Pop(ArgView::Register(sv[j - 1]))));
        j = j - 1;
    }
    assert(sv.reverse().subrange(0, sv.len() as int) =~= sv.reverse());
    assert(minstrs_view(out@) =~= base + (sv.map_values(|r: Register| InstrView::Push(ArgView::Register(r)))
        + seq![InstrView::Sub(rsp, rsp, ArgView::Immediate(40)), InstrView::Call(f@), InstrView::Add(rsp, rsp, ArgView::Immediate(40))]
        + sv.reverse().map_values(|r: Register| InstrView::Pop(ArgView::Register(r)))));
    match ret {
        None => Ok(()),
        Some(d) => {
            let g = match var_reg(a, d) {
                Ok(g) => g,
                Err(e) => return Err(e),
            };
            let ghost before = minstrs_view(out@);
            emit(out, Instruction::Mov(Argument::Register(g), reg_arg(RegisterType::RAX)));
            assert(minstrs_view(out@) =~= base + (before.subrange(base.len() as int, before.len() as int)).push(InstrView::Mov(ArgView::Register(g), ArgView::Register(q(RegisterType::RAX)))));
            Ok(())
        },
    }
}

fn comm_instr_exec(op: BinOp, d: Argument, x: Argument, y: Argument) -> (i: Instruction)
    ensures
        minstr_view(i) == comm_instr(op, arg_view(d), arg_view(x), arg_view(y)),
{
    match op {
        BinOp::Mul => Instruction::Mul(d, x, y),
        BinOp::And => Instruction::And(d, x, y),
        BinOp::Or => Instruction::Or(d, x, y),
        _ => Instruction::Add(d, x, y),
    }
}

fn comm_exec(op: BinOp, g: Register, x: Argument, y: Argument, out: &mut Vec<Instruction>)
    ensures
        minstrs_view(final(out)@) == minstrs_view(old(out)@) + comm_code(op, ArgView::Register(g), arg_view(x), arg_view(y)),
{
    let ghost base = minstrs_view(out@);
    let ghost xv = arg_view(x);
    let ghost yv = arg_view(y);
    let x_imm = matches!(x, Argument::Immediate(_));
    let y_imm = matches!(y, Argument::Immediate(_));
    let y_reg = matches!(y, Argument::Register(_));
    if x_imm && y_reg {
        emit(out, comm_instr_exec(op, Argument::Register(g), y, x));
        assert(minstrs_view(out@) =~= base + comm_code(op, ArgView::Register(g), xv, yv));
    } else if x_imm && y_imm && op != BinOp::Add {
        emit(out, Instruction::Mov(Argument::Register(g), x));
        emit(out, comm_instr_exec(op, Argument::Register(g), Argument::Register(g), y));
        assert(minstrs_view(out@) =~= base + comm_code(op, ArgView::Register(g), xv, yv));
    } else {
        emit(out, comm_instr_exec(op, Argument::Register(g), x, y));
        assert(minstrs_view(out@) =~= base + comm_code(op, ArgView::Register(g), xv, yv));
    }
}

fn jump_unless_exec(op: BinOp, l: String) -> (i: Instruction)
    ensures
        minstr_view(i) == jump_unless(op, l@),
{
    match op {
        BinOp::Eq => Instruction::Jne(l),
        BinOp::Ne => Instruction::Je(l),
        BinOp::Lt => Instruction::Jge(l),
        BinOp::Le => Instruction::Jg(l),
        BinOp::Gt => Instruction::Jle(l),
        _ => Instruction::Jl(l),
    }
}

fn mirrored_exec(op: BinOp) -> (r: BinOp)
    ensures
        r == mirrored(op),
{
    match op {
        BinOp::Lt => BinOp::Gt,
        BinOp::Le => BinOp::Ge,
        BinOp::Gt => BinOp::Lt,
        BinOp::Ge => BinOp::Le,
        _ => op,
    }
}

fn compare_exec(op: BinOp, g: Register, x: Argument, y: Argument, k: usize, out: &mut Vec<Instruction>)
    ensures
        minstrs_view(final(out)@) == minstrs_view(old(out)@) + compare_code(op, ArgView::Register(g), arg_view(x), arg_view(y), k as int),
{
    let ghost base = minstrs_view(out@);
    let ghost xv = arg_view(x);
    let ghost yv = arg_view(y);
    let swap = matches!(x, Argument::Immediate(_)) && matches!(y, Argument::Register(_));
    let c = if swap { mirrored_exec(op) } else { op };
    if swap {
        emit(out, Instruction::Cmp(y, x));
    } else {
        emit(out, Instruction::Cmp(x, y));
    }
    emit(out, Instruction::Mov(Argument::Register(g), Argument::Immediate(0)));
    let l = numbered_name("cmp_", k);
    emit(out, jump_unless_exec(c, l.clone()));
    emit(out, Instruction::Mov(Argument::Register(g), Argument::Immediate(1)));
    emit(out, Instruction::Label(l));
    assert(minstrs_view(out@) =~= base + compare_code(op, ArgView::Register(g), xv, yv, k as int));
}

fn gen_instr_exec(i: &TacInstruction, k: usize, a: &Vec<(String, isize)>, live: &Vec<Vec<String>>, out: &mut Vec<Instruction>) -> (r: Result<(), Error>)
    requires
        alloc_valid(a@),
    ensures
        match gen_instr(instr_view(*i), k as int, a@, live@) {
            None => r matches Err(e) && e is SimpleError,
            Some(t) => r is Ok && minstrs_view(final(out)@) == minstrs_view(old(out)@) + t,
        },
{
    let ghost base = minstrs_view(out@);
    match i {
        TacInstruction::Label(l) => {
            emit(out, Instruction::Label(l.clone()));
            assert(minstrs_view(out@) =~= base + seq![InstrView::Label(l@)]);
            Ok(())
        },
        TacInstruction::Goto(l) => {
            emit(out, Instruction::Jmp(l.clone()));
            assert(minstrs_view(out@) =~= base + seq![InstrView::Jmp(l@)]);
            Ok(())
        },
        TacInstruction::If(v, l) => {
            let o = match operand_exec(a, v) {
                Ok(o) => o,
                Err(e) => return Err(e),
            };
            let ghost ov = arg_view(o);
            emit(out, Instruction::Cmp(o, Argument::Immediate(0)));
            emit(out, Instruction::Je(l.clone()));
            assert(minstrs_view(out@) =~= base + seq![InstrView::Cmp(ov, ArgView::Immediate(0)), InstrView::Je(l@)]);
            Ok(())
        },
        TacInstruction::FunctionLabel(name, ps) => {
            emit(out, Instruction::Label(name.clone()));
            let ghost mid = minstrs_view(out@);
            match gen_params(ps, a, out) {
                Ok(()) => {
                    assert(minstrs_view(out@) =~= base + (seq![InstrView::Label(name@)] + minstrs_view(out@).subrange(mid.len() as int, minstrs_view(out@).len() as int)));
                    Ok(())
                },
                Err(e) => Err(e),
            }
        },
        TacInstruction::Assign(d, v) => {
            let g = match var_reg(a, d) {
                Ok(g) => g,
                Err(e) => return Err(e),
            };
            let o = match operand_exec(a, v) {
                Ok(o) => o,
                Err(e) => return Err(e),
            };
            let ghost ov = arg_view(o);
            emit(out, Instruction::Mov(Argument::Register(g), o));
            assert(minstrs_view(out@) =~= base + seq![InstrView::Mov(ArgView::Register(g), ov)]);
            Ok(())
        },
        TacInstruction::BinOp(d, l, op, rt) => {
            let g = match var_reg(a, d) {
                Ok(g) => g,
                Err(e) => return Err(e),
            };
            let lo = match operand_exec(a, l) {
                Ok(o) => o,
                Err(e) => return Err(e),
            };
            let ro = match operand_exec(a, rt) {
                Ok(o) => o,
                Err(e) => return Err(e),
            };
            let ghost lv = arg_view(lo);
            let ghost rv = arg_view(ro);
            let dst = Argument::Register(g);
            match op {
                BinOp::Add | BinOp::Mul | BinOp::And | BinOp::Or => {
                    comm_exec(*op, g, lo, ro, out);
                    Ok(())
                },
                BinOp::Sub => {
                    emit(out, Instruction::Sub(dst, lo, ro));
                    assert(minstrs_view(out@) =~= base + seq![InstrView::Sub(ArgView::Register(g), lv, rv)]);
                    Ok(())
                },
                BinOp::Div => {
                    emit(out, Instruction::Div(dst, reg_arg(RegisterType::RDX), lo, ro));
                    assert(minstrs_view(out@) =~= base + seq![InstrView::Div(ArgView::Register(g), ArgView::Register(q(RegisterType::RDX)), lv, rv)]);
                    Ok(())
                },
                _ => {
                    compare_exec(*op, g, lo, ro, k, out);
                    Ok(())
                },
            }
        },
        TacInstruction::UnaryOp(d, op, v) => {
            let g = match var_reg(a, d) {
                Ok(g) => g,
                Err(e) => return Err(e),
            };
            let o = match operand_exec(a, v) {
                Ok(o) => o,
                Err(e) => return Err(e),
            };
            let ghost ov = arg_view(o);
            match op {
                UnOp::Neg => {
                    emit(out, Instruction::Mov(Argument::Register(g), o));
                    emit(out, Instruction::Sub(Argument::Register(g), Argument::Register(g), Argument::Immediate(0)));
                    assert(minstrs_view(out@) =~= base + seq![
                        InstrView::Mov(ArgView::Register(g), ov),
                        InstrView::Sub(ArgView::Register(g), ArgView::Register(g), ArgView::Immediate(0)),
                    ]);
                },
                UnOp::Not => {
                    emit(out, Instruction::Not(Argument::Register(g), o));
                    assert(minstrs_view(out@) =~= base + seq![InstrView::Not(ArgView::Register(g), ov)]);
                },
            }
            Ok(())
        },
        TacInstruction::Return(v) => {
            match v {
                None => {
                    emit(out, Instruction::Ret);
                    assert(minstrs_view(out@) =~= base + seq![InstrView::Ret]);
                },
                Some(x) => {
                    let o = match operand_exec(a, x) {
                        Ok(o) => o,
                        Err(e) => return Err(e),
                    };
                    let ghost ov = arg_view(o);
                    emit(out, Instruction::Mov(reg_arg(RegisterType::RAX), o));
                    emit(out, Instruction::Ret);
                    assert(minstrs_view(out@) =~= base + seq![InstrView::Mov(ArgView::Register(q(RegisterType::RAX)), ov), InstrView::Ret]);
                },
            }
            Ok(())
        },
        TacInstruction::Call(f, _, ret) => call_exec(f, ret, k, a, live, out),
        TacInstruction::DirectInstruction(m) => {
            emit(out, copy_minstr(m));
            assert(minstrs_view(out@) =~= base + seq![minstr_view(*m)]);
            Ok(())
        },
    }
}

proof fn lemma_gen_seq_none(s: Seq<TacInstrView>, a: Seq<(String, isize)>, live: Seq<Vec<String>>, k: int)
    requires
        0 <= k <= s.len(),
        gen_seq(s.subrange(0, k), a, live) is None,
    ensures
        gen_seq(s, a, live) is None,
    decreases s.len() - k,
{
    if k < s.len() {
        assert(s.drop_last().subrange(0, k) =~= s.subrange(0, k));
        lemma_gen_seq_none(s.drop_last(), a, live, k);
    } else {
        assert(s.subrange(0, k) =~= s);
    }
}

/// The remainder of `x` by 16, from 0 to 15.
fn mod16(x: i128) -> (r: u8)
    requires
        -0x1_0000_0000_0000_0000_0000 < x < 0x1_0000_0000_0000_0000_0000,
    ensures
        r == x % 16,
        r < 16,
{
    if x >= 0 {
        (x % 16) as u8
    } else {
        let p = -(x + 1);
        assert(x % 16 == 15 - p % 16);
        (15 - p % 16) as u8
    }
}

fn stack_effect_exec(i: &Instruction) -> (e: i128)
    ensures
        e == stack_effect(minstr_view(*i)),
{
    match i {
        Instruction::Push(_) => -8,
        Instruction::Pop(_) => 8,
        Instruction::Sub(Argument::Register(Register::General(RegisterType::RSP, RegisterSize::QuadWord)), Argument::Register(Register::General(RegisterType::RSP, RegisterSize::QuadWord)), Argument::Immediate(n)) => *n as i128,
        Instruction::Add(Argument::Register(Register::General(RegisterType::RSP, RegisterSize::QuadWord)), Argument::Register(Register::General(RegisterType::RSP, RegisterSize::QuadWord)), Argument::Immediate(n)) => -(*n as i128),
        _ => 0,
    }
}

fn align_exec(s: Vec<Instruction>) -> (r: Vec<Instruction>)
    ensures
        minstrs_view(r@) == align_from(minstrs_view(s@), 0),
{
    let ghost sv = minstrs_view(s@);
    let n = s.len();
    let mut rev = crate::vecs::reversed(s);
    let mut out: Vec<Instruction> = Vec::new();
    let mut m: u8 = 0;
    let ghost mut off: int = 0;
    assert(sv.subrange(0, n as int) =~= sv);
    assert(minstrs_view(out@) + align_from(sv.subrange(0, n as int), 0) =~= align_from(sv, 0));
    while rev.len() > 0
        invariant
            n == sv.len(),
            sv == minstrs_view(s@),
            rev@.len() <= n,
            forall|i: int| 0 <= i < rev@.len() ==> #[trigger] rev@[i] == s@[n - 1 - i],
            m < 16,
            m == off % 16,
            minstrs_view(out@) + align_from(sv.subrange(n - rev@.len(), n as int), off) == align_from(sv, 0),
        decreases rev@.len(),
    {
        let ghost k = n - rev@.len();
        let i = rev.pop().unwrap();
        let ghost iv = minstr_view(i);
        assert(iv == sv[k]);
        let ghost rest = sv.subrange(k, n as int);
        assert(rest[0] == iv);
        assert(rest.drop_first() =~= sv.subrange(k + 1, n as int));
        let eff = stack_effect_exec(&i);
        let call = match &i {
            Instruction::Call(_) => true,
            Instruction::ExternCall(_) => true,
            _ => false,
        };
        let ghost before = minstrs_view(out@);
        if call && m != 0 {
            let adj = (16 - m) as i64;
            emit(&mut out, Instruction::Sub(reg_arg(RegisterType::RSP), reg_arg(RegisterType::RSP), Argument::Immediate(adj)));
            emit(&mut out, i);
            emit(&mut out, Instruction::Add(reg_arg(RegisterType::RSP), reg_arg(RegisterType::RSP), Argument::Immediate(adj)));
            let ghost rsp = ArgView::Register(q(RegisterType::RSP));
            assert(minstrs_view(out@) =~= before + seq![InstrView::Sub(rsp, rsp, ArgView::Immediate(adj)), iv, InstrView::Add(rsp, rsp, ArgView::Immediate(adj))]);
        } else {
            emit(&mut out, i);
            assert(minstrs_view(out@) =~= before + seq![iv]);
        }
        let e16 = mod16(eff);
        proof {
            vstd::arithmetic::div_mod::lemma_add_mod_noop(off, eff as int, 16);
            off = off + stack_effect(iv);
        }
        m = (m + e16) % 16;
    }
    out
}

/// The machine code of three-address code, given each variable's register and the
/// variables live before each instruction: each instruction in turn, then the exit of
/// the program with code 0, with the stack aligned to 16 bytes at every call. Errors
/// where a variable has no register or an instruction is not supported.
pub fn generate_code(tac: &Vec<TacInstruction>, register_allocation: &Vec<(String, isize)>, liveness: &Vec<Vec<String>>) -> (r: Result<Vec<Instruction>, Error>)
    requires
        alloc_valid(register_allocation@),
    ensures
        match generated(instrs_view(tac@), register_allocation@, liveness@) {
            None => r matches Err(e) && e is SimpleError,
            Some(s) => r matches Ok(v) && minstrs_view(v@) == s,
        },
{
    let ghost code = instrs_view(tac@);
    let mut out: Vec<Instruction> = Vec::new();
    let mut k: usize = 0;
    assert(minstrs_view(out@) =~= Seq::<InstrView>::empty());
    while k < tac.len()
        invariant
            k <= tac@.len(),
            code == instrs_view(tac@),
            alloc_valid(register_allocation@),
            gen_seq(code.subrange(0, k as int), register_allocation@, liveness@) == Some(minstrs_view(out@)),
        decreases tac@.len() - k,
    {
        assert(code.subrange(0, k + 1).drop_last() =~= code.subrange(0, k as int));
        assert(code.subrange(0, k + 1).last() == instr_view(tac@[k as int]));
        match gen_instr_exec(&tac[k], k, register_allocation, liveness, &mut out) {
            Ok(()) => {},
            Err(e) => {
                proof { lemma_gen_seq_none(code, register_allocation@, liveness@, k + 1); }
                return Err(e);
            },
        }
        k = k + 1;
    }
    assert(code.subrange(0, tac@.len() as int) =~= code);
    let ghost body = minstrs_view(out@);
    emit(&mut out, Instruction::Mov(reg_arg(RegisterType::RCX), Argument::Immediate(0)));
    emit(&mut out, Instruction::ExternCall(String::from_str("ExitProcess")));
    assert(minstrs_view(out@) =~= body + seq![InstrView::Mov(ArgView::Register(q(RegisterType::RCX)), ArgView::Immediate(0)), InstrView::ExternCall("ExitProcess"@)]);
    Ok(align_exec(out))
}

fn copy_marg(a: &Argument) -> (r: Argument)
    ensures
        arg_view(r) == arg_view(*a),
{
    match a {
        Argument::Register(g) => Argument::Register(*g),
        Argument::Immediate(i) => Argument::Immediate(*i),
        Argument::Label(l) => Argument::Label(l.clone()),
        Argument::MemoryAddressDirect(m) => Argument::MemoryAddressDirect(*m),
        Argument::MemoryAddressRegister(g) => Argument::MemoryAddressRegister(*g),
    }
}

/// A copy of a machine instruction.
pub(crate) fn copy_minstr(i: &Instruction) -> (r: Instruction)
    ensures
        minstr_view(r) == minstr_view(*i),
{
    let c = copy_marg;
    match i {
        Instruction::Mov(a, b) => Instruction::Mov(c(a), c(b)),
        Instruction::Add(a, b, d) => Instruction::Add(c(a), c(b), c(d)),
        Instruction::Sub(a, b, d) => Instruction::Sub(c(a), c(b), c(d)),
        Instruction::Mul(a, b, d) => Instruction::Mul(c(a), c(b), c(d)),
        Instruction::Div(a, b, d, e) => Instruction::Div(c(a), c(b), c(d), c(e)),
        Instruction::Xor(a, b, d) => Instruction::Xor(c(a), c(b), c(d)),
        Instruction::And(a, b, d) => Instruction::And(c(a), c(b), c(d)),
        Instruction::Or(a, b, d) => Instruction::Or(c(a), c(b), c(d)),
        Instruction::Not(a, b) => Instruction::Not(c(a), c(b)),
        Instruction::Cmp(a, b) => Instruction::Cmp(c(a), c(b)),
        Instruction::Jmp(l) => Instruction::Jmp(l.clone()),
        Instruction::Je(l) => Instruction::Je(l.clone()),
        Instruction::Jne(l) => Instruction::Jne(l.clone()),
        Instruction::Jg(l) => Instruction::Jg(l.clone()),
        Instruction::Jge(l) => Instruction::Jge(l.clone()),
        Instruction::Jl(l) => Instruction::Jl(l.clone()),
        Instruction::Jle(l) => Instruction::Jle(l.clone()),
        Instruction::Ret => Instruction::Ret,
        Instruction::Push(a) => Instruction::Push(c(a)),
        Instruction::Pop(a) => Instruction::Pop(c(a)),
        Instruction::Label(l) => Instruction::Label(l.clone()),
        Instruction::ExternCall(l) => Instruction::ExternCall(l.clone()),
        Instruction::Call(l) => Instruction::Call(l.clone()),
        Instruction::Nop => Instruction::Nop,
        Instruction::ProgramStart => Instruction::ProgramStart,
    }
}

/// How far the stack pointer has moved after a sequence of instructions, counted as
/// `stack_effect` does, from `off`.
pub open spec fn offset_after(s: Seq<InstrView>, off: int) -> int
    decreases s.len(),
{
    if s.len() == 0 {
        off
    } else {
        offset_after(s.drop_first(), off + stack_effect(s[0]))
    }
}

proof fn lemma_offset_concat(a: Seq<InstrView>, b: Seq<InstrView>, off: int)
    ensures
        offset_after(a + b, off) == offset_after(b, offset_after(a, off)),
    decreases a.len(),
{
    if a.len() > 0 {
        assert((a + b).drop_first() =~= a.drop_first() + b);
        lemma_offset_concat(a.drop_first(), b, off + stack_effect(a[0]));
    } else {
        assert(a + b =~= b);
    }
}

/// Stack alignment law: in aligned code, every call is reached with the stack pointer
/// moved by a multiple of 16 bytes from where the code started at offset `off`,
/// counting the adjustments that alignment inserts.
pub proof fn lemma_calls_aligned(s: Seq<InstrView>, off: int)
    ensures
        forall|k: int| 0 <= k < align_from(s, off).len() && #[trigger] is_call(align_from(s, off)[k]) ==>
            offset_after(align_from(s, off).take(k), off) % 16 == 0,
    decreases s.len(),
{
    if s.len() > 0 {
        let i = s[0];
        let rsp = ArgView::Register(q(RegisterType::RSP));
        let adj = ArgView::Immediate((16 - off % 16) as i64);
        let head = if is_call(i) && off % 16 != 0 {
            seq![InstrView::Sub(rsp, rsp, adj), i, InstrView::Add(rsp, rsp, adj)]
        } else {
            seq![i]
        };
        let off2 = off + stack_effect(i);
        let rest = align_from(s.drop_first(), off2);
        let out = align_from(s, off);
        assert(out == head + rest);
        lemma_calls_aligned(s.drop_first(), off2);
        assert(offset_after(head, off) == off2) by {
            reveal_with_fuel(offset_after, 4);
            if is_call(i) && off % 16 != 0 {
                let a = off % 16;
                assert(stack_effect(head[0]) == 16 - a);
                assert(stack_effect(head[1]) == 0);
                assert(stack_effect(head[2]) == -(16 - a));
                assert(head.drop_first() =~= seq![i, InstrView::Add(rsp, rsp, adj)]);
                assert(head.drop_first().drop_first() =~= seq![InstrView::Add(rsp, rsp, adj)]);
                assert(head.drop_first().drop_first().drop_first() =~= Seq::<InstrView>::empty());
            } else {
                assert(head.drop_first() =~= Seq::<InstrView>::empty());
            }
        }
        assert forall|k: int| 0 <= k < out.len() && #[trigger] is_call(out[k]) implies offset_after(out.take(k), off) % 16 == 0 by {
            if k < head.len() {
                if is_call(i) && off % 16 != 0 {
                    assert(k == 1);
                    assert(out.take(1) =~= seq![InstrView::Sub(rsp, rsp, adj)]);
                    assert(offset_after(out.take(1).drop_first(), off + (16 - off % 16)) == off + (16 - off % 16));
                } else {
                    assert(k == 0);
                    assert(out.take(0).len() == 0);
                }
            } else {
                assert(out.take(k) =~= head + rest.take(k - head.len()));
                lemma_offset_concat(head, rest.take(k - head.len()), off);
                assert(rest[k - head.len()] == out[k]);
            }
        }
    }
}

/// Generated code reaches every call, the exit included, with the stack pointer moved
/// by a multiple of 16 bytes from the start of the program.
pub proof fn lemma_generated_calls_aligned(code: Seq<TacInstrView>, a: Seq<(String, isize)>, live: Seq<Vec<String>>)
    requires
        generated(code, a, live) is Some,
    ensures
        forall|k: int| 0 <= k < generated(code, a, live).unwrap().len() && #[trigger] is_call(generated(code, a, live).unwrap()[k]) ==>
            offset_after(generated(code, a, live).unwrap().take(k), 0) % 16 == 0,
{
    let s = gen_seq(code, a, live).unwrap()
        + seq![InstrView::Mov(ArgView::Register(q(RegisterType::RCX)), ArgView::Immediate(0)), InstrView::ExternCall("ExitProcess"@)];
    lemma_calls_aligned(s, 0);
}

/// An allocation as names and numbers.
pub open spec fn alloc_view(a: Seq<(String, isize)>) -> Seq<(Seq<char>, isize)> {
    a.map_values(|p: (String, isize)| (p.0@, p.1))
}

proof fn lemma_alloc_lookup_views(a1: Seq<(String, isize)>, a2: Seq<(String, isize)>, x: Seq<char>)
    requires
        alloc_view(a1) == alloc_view(a2),
    ensures
        alloc_lookup(a1, x) == alloc_lookup(a2, x),
    decreases a1.len(),
{
    assert(a1.len() == alloc_view(a1).len());
    assert(a2.len() == alloc_view(a2).len());
    if a1.len() > 0 {
        assert(alloc_view(a1.drop_last()) =~= alloc_view(a1).drop_last());
        assert(alloc_view(a2.drop_last()) =~= alloc_view(a2).drop_last());
        assert(alloc_view(a1)[a1.len() - 1] == alloc_view(a2)[a2.len() - 1]);
        lemma_alloc_lookup_views(a1.drop_last(), a2.drop_last(), x);
    }
}

proof fn lemma_param_moves_views(ps: Seq<Seq<char>>, a1: Seq<(String, isize)>, a2: Seq<(String, isize)>)
    requires
        alloc_view(a1) == alloc_view(a2),
    ensures
        param_moves(ps, a1) == param_moves(ps, a2),
    decreases ps.len(),
{
    if ps.len() > 0 {
        lemma_param_moves_views(ps.drop_last(), a1, a2);
        lemma_alloc_lookup_views(a1, a2, ps.last());
    }
}

proof fn lemma_saved_from_views(n1: Seq<String>, n2: Seq<String>, a1: Seq<(String, isize)>, a2: Seq<(String, isize)>)
    requires
        strings_view(n1) == strings_view(n2),
        alloc_view(a1) == alloc_view(a2),
    ensures
        saved_from(n1, a1) == saved_from(n2, a2),
    decreases n1.len(),
{
    assert(n1.len() == strings_view(n1).len());
    assert(n2.len() == strings_view(n2).len());
    if n1.len() > 0 {
        assert(strings_view(n1.drop_last()) =~= strings_view(n1).drop_last());
        assert(strings_view(n2.drop_last()) =~= strings_view(n2).drop_last());
        assert(strings_view(n1)[n1.len() - 1] == strings_view(n2)[n2.len() - 1]);
        lemma_saved_from_views(n1.drop_last(), n2.drop_last(), a1, a2);
        lemma_alloc_lookup_views(a1, a2, n1.last()@);
    }
}

proof fn lemma_gen_instr_views(i: TacInstrView, k: int, a1: Seq<(String, isize)>, a2: Seq<(String, isize)>, l1: Seq<Vec<String>>, l2: Seq<Vec<String>>)
    requires
        alloc_view(a1) == alloc_view(a2),
        lives_view(l1) == lives_view(l2),
    ensures
        gen_instr(i, k, a1, l1) == gen_instr(i, k, a2, l2),
{
    assert forall|x: Seq<char>| #[trigger] alloc_lookup(a1, x) == alloc_lookup(a2, x) by {
        lemma_alloc_lookup_views(a1, a2, x);
    }
    assert(l1.len() == lives_view(l1).len());
    assert(l2.len() == lives_view(l2).len());
    match i {
        TacInstrView::FunctionLabel(_, ps) => {
            lemma_param_moves_views(ps, a1, a2);
        },
        TacInstrView::Call(f, _, ret) => {
            if 0 < k < l1.len() {
                assert(lives_view(l1)[k] == strings_view(l1[k]@));
                assert(lives_view(l2)[k] == strings_view(l2[k]@));
                lemma_saved_from_views(l1[k]@, l2[k]@, a1, a2);
            }
            assert(saved_registers(l1, k, a1) == saved_registers(l2, k, a2));
            match ret {
                Some(d) => {
                    assert(var_register(a1, d) == var_register(a2, d));
                },
                None => {},
            }
        },
        _ => {},
    }
}

proof fn lemma_gen_seq_views(code: Seq<TacInstrView>, a1: Seq<(String, isize)>, a2: Seq<(String, isize)>, l1: Seq<Vec<String>>, l2: Seq<Vec<String>>)
    requires
        alloc_view(a1) == alloc_view(a2),
        lives_view(l1) == lives_view(l2),
    ensures
        gen_seq(code, a1, l1) == gen_seq(code, a2, l2),
    decreases code.len(),
{
    if code.len() > 0 {
        lemma_gen_seq_views(code.drop_last(), a1, a2, l1, l2);
        lemma_gen_instr_views(code.last(), code.len() - 1, a1, a2, l1, l2);
    }
}

/// The machine code depends on the allocation and the liveness lists only through the
/// names and numbers they hold.
pub proof fn lemma_generated_views(code: Seq<TacInstrView>, a1: Seq<(String, isize)>, a2: Seq<(String, isize)>, l1: Seq<Vec<String>>, l2: Seq<Vec<String>>)
    requires
        alloc_view(a1) == alloc_view(a2),
        lives_view(l1) == lives_view(l2),
    ensures
        generated(code, a1, l1) == generated(code, a2, l2),
        alloc_valid(a1) == alloc_valid(a2),
{
    lemma_gen_seq_views(code, a1, a2, l1, l2);
    assert(a1.len() == alloc_view(a1).len());
    assert(a2.len() == alloc_view(a2).len());
    assert forall|i: int| 0 <= i < a1.len() implies a1[i].1 == a2[i].1 by {
        assert(alloc_view(a1)[i] == alloc_view(a2)[i]);
    }
}

} // verus!
