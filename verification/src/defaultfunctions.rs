//! The functions every program has without defining them, and the machine code of
//! those the language provides.
use vstd::prelude::*;
use crate::codegenerator::Argument;
use crate::codegenerator::ArgView;
use crate::codegenerator::Instruction;
use crate::codegenerator::InstrView;
use crate::codegenerator::Register;
use crate::codegenerator::RegisterType;
use crate::codegenerator::RegisterSize;
use crate::codegenerator::q;
use crate::codegenerator::qx;
use crate::tac::TacInstruction;
use crate::tac::TacInstrView;
use crate::tac::TacFunction;
use crate::tac::TacFunctionView;
use crate::tac::instrs_view;
use crate::tac::tac_fn_view;
use crate::typechecker::Type;
use crate::typechecker::FunctionType;
use crate::typechecker::FunctionTypeView;
use crate::typechecker::fns_view;
use crate::typechecker::fn_view;
use crate::typechecker::types_equal;
use crate::text::nat_digits;
use crate::text::numbered_name;

verus! {

/// Whether a name is that of a function the language provides: `print` or `println`.
pub fn is_default_function(name: &str) -> (r: bool)
    ensures
        r == (name@ == "print"@ || name@ == "println"@),
{
    let p = "print";
    let q = "println";
    proof {
        reveal_strlit("print");
        reveal_strlit("println");
    }
    str_equal(name, p) || str_equal(name, q)
}

pub(crate) fn str_equal(a: &str, b: &str) -> (r: bool)
    ensures
        r == (a@ == b@),
{
    let n = a.unicode_len();
    if n != b.unicode_len() {
        return false;
    }
    let mut i: usize = 0;
    while i < n
        invariant
            n == a@.len(),
            n == b@.len(),
            i <= n,
            forall|j: int| 0 <= j < i ==> a@[j] == b@[j],
        decreases n - i,
    {
        if a.get_char(i) != b.get_char(i) {
            return false;
        }
        i = i + 1;
    }
    assert(a@ =~= b@);
    true
}

/// A 64-bit register as an operand.
pub open spec fn rv(t: RegisterType) -> ArgView {
    ArgView::Register(q(t))
}

/// A machine instruction in three-address code.
pub open spec fn direct(i: InstrView) -> TacInstrView {
    TacInstrView::DirectInstruction(i)
}

fn ra(t: RegisterType) -> (r: Argument)
    ensures
        crate::codegenerator::arg_view(r) == rv(t),
{
    Argument::Register(Register::General(t, RegisterSize::QuadWord))
}

fn put_direct(out: &mut Vec<TacInstruction>, i: Instruction)
    ensures
        instrs_view(final(out)@) == instrs_view(old(out)@).push(direct(crate::codegenerator::minstr_view(i))),
{
    out.push(TacInstruction::DirectInstruction(i));
    assert(instrs_view(out@) =~= instrs_view(old(out)@).push(direct(crate::codegenerator::minstr_view(i))));
}

/// Saves `rbx` and `rdi`, reserves a 32-byte buffer, points `rbx` past its 16th byte, and divides the number (in `rcx`) by 10 from `rax`.
pub open spec fn prologue_code() -> Seq<TacInstrView> {
    seq![
        direct(InstrView::Push(rv(RegisterType::RBX))),
        direct(InstrView::Push(rv(RegisterType::RDI))),
        direct(InstrView::Sub(rv(RegisterType::RSP), rv(RegisterType::RSP), ArgView::Immediate(32))),
        direct(InstrView::Mov(rv(RegisterType::RDI), rv(RegisterType::RSP))),
        direct(InstrView::Add(rv(RegisterType::RDI), rv(RegisterType::RDI), ArgView::Immediate(32))),
        direct(InstrView::Mov(rv(RegisterType::RBX), rv(RegisterType::RDI))),
        direct(InstrView::Add(rv(RegisterType::RBX), rv(RegisterType::RBX), ArgView::Immediate(16))),
        direct(InstrView::Mov(rv(RegisterType::RAX), rv(RegisterType::RCX))),
        direct(InstrView::Mov(rv(RegisterType::RCX), ArgView::Immediate(10))),
    ]
}

/// Writes the digits from the last: each remainder by 10, as a character, one byte lower in the buffer, until the number is 0.
pub open spec fn digit_loop_code(loop_label: Seq<char>) -> Seq<TacInstrView> {
    seq![
        direct(InstrView::Label(loop_label)),
        direct(InstrView::Xor(rv(RegisterType::RDX), rv(RegisterType::RDX), rv(RegisterType::RDX))),
        direct(InstrView::Div(rv(RegisterType::RAX), rv(RegisterType::RDX), rv(RegisterType::RAX), rv(RegisterType::RCX))),
        direct(InstrView::Add(rv(RegisterType::RDX), rv(RegisterType::RDX), ArgView::Immediate(48))),
        direct(InstrView::Sub(rv(RegisterType::RBX), rv(RegisterType::RBX), ArgView::Immediate(1))),
        direct(InstrView::Mov(ArgView::MemoryAddressRegister(Register::General(RegisterType::RBX, RegisterSize::Byte)), ArgView::Register(Register::General(RegisterType::RDX, RegisterSize::Byte)))),
        direct(InstrView::Cmp(rv(RegisterType::RAX), ArgView::Immediate(0))),
        direct(InstrView::Jne(loop_label)),
    ]
}

/// Puts a newline before the digits.
pub open spec fn newline_code() -> Seq<TacInstrView> {
    seq![
        direct(InstrView::Sub(rv(RegisterType::RBX), rv(RegisterType::RBX), ArgView::Immediate(1))),
        direct(InstrView::Mov(ArgView::MemoryAddressRegister(Register::General(RegisterType::RBX, RegisterSize::Byte)), ArgView::Immediate(10))),
    ]
}

/// Gets the standard output handle and computes the length of the text.
pub open spec fn std_handle_code() -> Seq<TacInstrView> {
    seq![
        direct(InstrView::Mov(rv(RegisterType::RCX), ArgView::Immediate(-11i64))),
        direct(InstrView::Sub(rv(RegisterType::RSP), rv(RegisterType::RSP), ArgView::Immediate(40))),
        direct(InstrView::ExternCall("GetStdHandle"@)),
        direct(InstrView::Add(rv(RegisterType::RSP), rv(RegisterType::RSP), ArgView::Immediate(40))),
        direct(InstrView::Mov(ArgView::Register(qx(8)), rv(RegisterType::RDI))),
        direct(InstrView::Mov(rv(RegisterType::RSI), rv(RegisterType::RAX))),
        direct(InstrView::Mov(rv(RegisterType::RDX), rv(RegisterType::RDI))),
        direct(InstrView::Add(rv(RegisterType::RDX), rv(RegisterType::RDX), ArgView::Immediate(16))),
        direct(InstrView::Sub(rv(RegisterType::RDX), rv(RegisterType::RDX), rv(RegisterType::RBX))),
    ]
}

/// Writes the text to standard output.
pub open spec fn write_call_code() -> Seq<TacInstrView> {
    seq![
        direct(InstrView::Mov(ArgView::Register(qx(8)), rv(RegisterType::RDX))),
        direct(InstrView::Mov(rv(RegisterType::RCX), rv(RegisterType::RSI))),
        direct(InstrView::Mov(rv(RegisterType::RDX), rv(RegisterType::RBX))),
        direct(InstrView::Mov(ArgView::Register(qx(9)), ArgView::Immediate(0))),
        direct(InstrView::Sub(rv(RegisterType::RSP), rv(RegisterType::RSP), ArgView::Immediate(40))),
        direct(InstrView::ExternCall("WriteFile"@)),
        direct(InstrView::Add(rv(RegisterType::RSP), rv(RegisterType::RSP), ArgView::Immediate(40))),
    ]
}

/// Releases the buffer, restores `rdi` and `rbx` and returns.
pub open spec fn epilogue_code() -> Seq<TacInstrView> {
    seq![
        direct(InstrView::Add(rv(RegisterType::RSP), rv(RegisterType::RSP), ArgView::Immediate(32))),
        direct(InstrView::Pop(rv(RegisterType::RDI))),
        direct(InstrView::Pop(rv(RegisterType::RBX))),
        direct(InstrView::Ret),
    ]
}

fn write_prologue(out: &mut Vec<TacInstruction>)
    ensures
        instrs_view(final(out)@) == instrs_view(old(out)@) + prologue_code(),
{
    put_direct(out, Instruction::Push(ra(RegisterType::RBX)));
    put_direct(out, Instruction::Push(ra(RegisterType::RDI)));
    put_direct(out, Instruction::Sub(ra(RegisterType::RSP), ra(RegisterType::RSP), Argument::Immediate(32)));
    put_direct(out, Instruction::Mov(ra(RegisterType::RDI), ra(RegisterType::RSP)));
    put_direct(out, Instruction::Add(ra(RegisterType::RDI), ra(RegisterType::RDI), Argument::Immediate(32)));
    put_direct(out, Instruction::Mov(ra(RegisterType::RBX), ra(RegisterType::RDI)));
    put_direct(out, Instruction::Add(ra(RegisterType::RBX), ra(RegisterType::RBX), Argument::Immediate(16)));
    put_direct(out, Instruction::Mov(ra(RegisterType::RAX), ra(RegisterType::RCX)));
    put_direct(out, Instruction::Mov(ra(RegisterType::RCX), Argument::Immediate(10)));
    assert(instrs_view(out@) =~= instrs_view(old(out)@) + prologue_code());
}

fn write_digit_loop(out: &mut Vec<TacInstruction>, loop_label: &String)
    ensures
        instrs_view(final(out)@) == instrs_view(old(out)@) + digit_loop_code(loop_label@),
{
    put_direct(out, Instruction::Label(loop_label.clone()));
    put_direct(out, Instruction::Xor(ra(RegisterType::RDX), ra(RegisterType::RDX), ra(RegisterType::RDX)));
    put_direct(out, Instruction::Div(ra(RegisterType::RAX), ra(RegisterType::RDX), ra(RegisterType::RAX), ra(RegisterType::RCX)));
    put_direct(out, Instruction::Add(ra(RegisterType::RDX), ra(RegisterType::RDX), Argument::Immediate(48)));
    put_direct(out, Instruction::Sub(ra(RegisterType::RBX), ra(RegisterType::RBX), Argument::Immediate(1)));
    put_direct(out, Instruction::Mov(Argument::MemoryAddressRegister(Register::General(RegisterType::RBX, RegisterSize::Byte)), Argument::Register(Register::General(RegisterType::RDX, RegisterSize::Byte))));
    put_direct(out, Instruction::Cmp(ra(RegisterType::RAX), Argument::Immediate(0)));
    put_direct(out, Instruction::Jne(loop_label.clone()));
    assert(instrs_view(out@) =~= instrs_view(old(out)@) + digit_loop_code(loop_label@));
}

fn write_newline(out: &mut Vec<TacInstruction>)
    ensures
        instrs_view(final(out)@) == instrs_view(old(out)@) + newline_code(),
{
    put_direct(out, Instruction::Sub(ra(RegisterType::RBX), ra(RegisterType::RBX), Argument::Immediate(1)));
    put_direct(out, Instruction::Mov(Argument::MemoryAddressRegister(Register::General(RegisterType::RBX, RegisterSize::Byte)), Argument::Immediate(10)));
    assert(instrs_view(out@) =~= instrs_view(old(out)@) + newline_code());
}

fn write_std_handle(out: &mut Vec<TacInstruction>)
    ensures
        instrs_view(final(out)@) == instrs_view(old(out)@) + std_handle_code(),
{
    put_direct(out, Instruction::Mov(ra(RegisterType::RCX), Argument::Immediate(-11i64)));
    put_direct(out, Instruction::Sub(ra(RegisterType::RSP), ra(RegisterType::RSP), Argument::Immediate(40)));
    put_direct(out, Instruction::ExternCall(String::from_str("GetStdHandle")));
    put_direct(out, Instruction::Add(ra(RegisterType::RSP), ra(RegisterType::RSP), Argument::Immediate(40)));
    put_direct(out, Instruction::Mov(Argument::Register(Register::Extended(8, RegisterSize::QuadWord)), ra(RegisterType::RDI)));
    put_direct(out, Instruction::Mov(ra(RegisterType::RSI), ra(RegisterType::RAX)));
    put_direct(out, Instruction::Mov(ra(RegisterType::RDX), ra(RegisterType::RDI)));
    put_direct(out, Instruction::Add(ra(RegisterType::RDX), ra(RegisterType::RDX), Argument::Immediate(16)));
    put_direct(out, Instruction::Sub(ra(RegisterType::RDX), ra(RegisterType::RDX), ra(RegisterType::RBX)));
    assert(instrs_view(out@) =~= instrs_view(old(out)@) + std_handle_code());
}

fn write_write_call(out: &mut Vec<TacInstruction>)
    ensures
        instrs_view(final(out)@) == instrs_view(old(out)@) + write_call_code(),
{
    put_direct(out, Instruction::Mov(Argument::Register(Register::Extended(8, RegisterSize::QuadWord)), ra(RegisterType::RDX)));
    put_direct(out, Instruction::Mov(ra(RegisterType::RCX), ra(RegisterType::RSI)));
    put_direct(out, Instruction::Mov(ra(RegisterType::RDX), ra(RegisterType::RBX)));
    put_direct(out, Instruction::Mov(Argument::Register(Register::Extended(9, RegisterSize::QuadWord)), Argument::Immediate(0)));
    put_direct(out, Instruction::Sub(ra(RegisterType::RSP), ra(RegisterType::RSP), Argument::Immediate(40)));
    put_direct(out, Instruction::ExternCall(String::from_str("WriteFile")));
    put_direct(out, Instruction::Add(ra(RegisterType::RSP), ra(RegisterType::RSP), Argument::Immediate(40)));
    assert(instrs_view(out@) =~= instrs_view(old(out)@) + write_call_code());
}

fn write_epilogue(out: &mut Vec<TacInstruction>)
    ensures
        instrs_view(final(out)@) == instrs_view(old(out)@) + epilogue_code(),
{
    put_direct(out, Instruction::Add(ra(RegisterType::RSP), ra(RegisterType::RSP), Argument::Immediate(32)));
    put_direct(out, Instruction::Pop(ra(RegisterType::RDI)));
    put_direct(out, Instruction::Pop(ra(RegisterType::RBX)));
    put_direct(out, Instruction::Ret);
    assert(instrs_view(out@) =~= instrs_view(old(out)@) + epilogue_code());
}

/// Whether a function instance is one whose code the language provides: `print` or
/// `println` of one integer.
pub open spec fn provided_instance(f: FunctionTypeView) -> bool {
    &&& (f.name == "print"@ || f.name == "println"@)
    &&& f.param_types == seq![Type::Integer]
    &&& f.param_names.len() == 1
}

/// The label of the provided printing code.
pub open spec fn routine_label(newline: bool) -> Seq<char> {
    if newline { "func_println_int"@ } else { "func_print_int"@ }
}

/// The provided code of `print` or `println` of an integer: the digits are written
/// into a buffer on the stack, from the last, then written to standard output; `println`
/// ends them with a newline. The loop label is numbered by `counter`.
pub open spec fn routine_code(f: FunctionTypeView, counter: nat) -> Seq<TacInstrView> {
    let newline = f.name == "println"@;
    let loop_label = "print_int_loop_start_"@ + nat_digits(counter);
    seq![TacInstrView::FunctionLabel(routine_label(newline), seq![f.param_names[0]])]
        + prologue_code() + digit_loop_code(loop_label)
        + (if newline { newline_code() } else { seq![] })
        + std_handle_code() + write_call_code() + epilogue_code()
}

/// The function instance the provided code makes callable.
pub open spec fn routine_entry(f: FunctionTypeView) -> TacFunctionView {
    TacFunctionView { name: f.name, params: seq![Type::Integer], return_type: Type::Undefined, label: routine_label(f.name == "println"@) }
}

/// The code and function instances of the provided functions among `fs`, in order, and
/// the next loop label number.
pub open spec fn provided(fs: Seq<FunctionTypeView>, counter: nat) -> (Seq<TacInstrView>, Seq<TacFunctionView>, nat)
    decreases fs.len(),
{
    if fs.len() == 0 {
        (seq![], seq![], counter)
    } else {
        let (code, entries, c) = provided(fs.drop_last(), counter);
        let f = fs.last();
        if provided_instance(f) {
            (code + routine_code(f, c), entries.push(routine_entry(f)), c + 1)
        } else {
            (code, entries, c)
        }
    }
}

/// The views of function instances.
pub open spec fn tac_fns_view(v: Seq<TacFunction>) -> Seq<TacFunctionView> {
    v.map_values(|f: TacFunction| tac_fn_view(f))
}

fn is_provided(f: &FunctionType) -> (r: bool)
    ensures
        r == provided_instance(fn_view(*f)),
{
    if !is_default_function(f.name.as_str()) {
        return false;
    }
    if f.param_types.len() != 1 || f.param_names.len() != 1 {
        return false;
    }
    let mut ints: Vec<Type> = Vec::new();
    ints.push(Type::Integer);
    assert(ints@ =~= seq![Type::Integer]);
    types_equal(&f.param_types, &ints)
}

/// Appends, for each `print` or `println` of one integer among the function instances,
/// the code the language provides for it and makes it callable; each takes the next
/// loop label number.
pub fn add_default_functions(functions: &Vec<FunctionType>, function_env: &mut Vec<TacFunction>, instructions: &mut Vec<TacInstruction>, label_counter: &mut usize)
    requires
        *old(label_counter) + functions@.len() <= usize::MAX,
    ensures
        instrs_view(final(instructions)@) == instrs_view(old(instructions)@) + provided(fns_view(functions@), *old(label_counter) as nat).0,
        tac_fns_view(final(function_env)@) == tac_fns_view(old(function_env)@) + provided(fns_view(functions@), *old(label_counter) as nat).1,
        *final(label_counter) as nat == provided(fns_view(functions@), *old(label_counter) as nat).2,
{
    let ghost fv = fns_view(functions@);
    let ghost c0 = *label_counter as nat;
    let ghost code0 = instrs_view(instructions@);
    let ghost env0 = tac_fns_view(function_env@);
    let mut k: usize = 0;
    assert(fv.subrange(0, 0) =~= Seq::<FunctionTypeView>::empty());
    assert(instrs_view(instructions@) =~= code0 + Seq::<TacInstrView>::empty());
    assert(tac_fns_view(function_env@) =~= env0 + Seq::<TacFunctionView>::empty());
    while k < functions.len()
        invariant
            k <= functions@.len(),
            fv == fns_view(functions@),
            c0 + functions@.len() <= usize::MAX,
            *label_counter as nat <= c0 + k,
            instrs_view(instructions@) == code0 + provided(fv.subrange(0, k as int), c0).0,
            tac_fns_view(function_env@) == env0 + provided(fv.subrange(0, k as int), c0).1,
            *label_counter as nat == provided(fv.subrange(0, k as int), c0).2,
        decreases functions@.len() - k,
    {
        assert(fv.subrange(0, k + 1).drop_last() =~= fv.subrange(0, k as int));
        assert(fv.subrange(0, k + 1).last() == fn_view(functions@[k as int]));
        let f = &functions[k];
        if is_provided(f) {
            let newline = str_equal(f.name.as_str(), "println");
            let ghost before = instrs_view(instructions@);
            let label = if newline { String::from_str("func_println_int") } else { String::from_str("func_print_int") };
            let loop_label = numbered_name("print_int_loop_start_", *label_counter);
            let mut params: Vec<String> = Vec::new();
            params.push(f.param_names[0].clone());
            assert(crate::parser::strings_view(params@) =~= seq![fn_view(*f).param_names[0]]);
            instructions.push(TacInstruction::FunctionLabel(label.clone(), params));
            write_prologue(instructions);
            write_digit_loop(instructions, &loop_label);
            if newline {
                write_newline(instructions);
            }
            write_std_handle(instructions);
            write_write_call(instructions);
            write_epilogue(instructions);
            assert(instrs_view(instructions@) =~= before + routine_code(fn_view(*f), *label_counter as nat));
            let ghost env_before = tac_fns_view(function_env@);
            let mut ptypes: Vec<Type> = Vec::new();
            ptypes.push(Type::Integer);
            function_env.push(TacFunction { name: f.name.clone(), params: ptypes, return_type: Type::Undefined, label });
            assert(tac_fns_view(function_env@) =~= env_before.push(routine_entry(fn_view(*f))));
            *label_counter = *label_counter + 1;
        }
        k = k + 1;
    }
    assert(fv.subrange(0, functions@.len() as int) =~= fv);
}

} // verus!
