//! Text listings of registers, operands and instructions, as the debug output shows them.
use vstd::prelude::*;
use vstd::string::StringExecFns;
use crate::text::nat_digits;
use crate::text::int_text;
use crate::text::quoted;
use crate::text::quoted_string;
use crate::text::u64_to_chars;
use crate::text::string_from_chars;
use crate::text::i64_to_string;
use crate::codegenerator::Register;
use crate::codegenerator::RegisterType;
use crate::codegenerator::RegisterSize;
use crate::codegenerator::Argument;
use crate::codegenerator::ArgView;
use crate::codegenerator::arg_view;
use crate::codegenerator::Instruction;
use crate::codegenerator::InstrView;
use crate::codegenerator::minstr_view;
use crate::instructionsimplifier::AssemblyInstruction;
use crate::instructionsimplifier::AsmView;
use crate::instructionsimplifier::asm_view;
use crate::tokenizer::Error;
use crate::tokenizer::Token;
use crate::tokenizer::TokenData;
use crate::tokenizer::TokenDataView;
use crate::tokenizer::TokenLine;
use crate::tokenizer::symbol_text;
use crate::tokenizer::get_symbol_from_type;
use crate::tokenizer::lines_view;
use crate::typechecker::type_text;
use crate::typechecker::type_to_string;
use crate::text::push_char;
use crate::text::i32_to_string;
use crate::parser::BaseExpr;
use crate::parser::BaseExprData;
use crate::parser::BaseExprView;
use crate::parser::BaseExprDataView;
use crate::parser::RecExpr;
use crate::parser::RecExprData;
use crate::parser::RecExprView;
use crate::parser::RecExprDataView;
use crate::parser::BinaryKind;
use crate::parser::rec_view;
use crate::parser::recs_view;
use crate::parser::base_view;
use crate::parser::bases_view;
use crate::parser::rec_size;
use crate::parser::recs_size;
use crate::parser::stmt_size;
use crate::parser::stmts_size;
use crate::parser::lemma_recs_size;
use crate::parser::lemma_stmts_size;
use crate::parser::lemma_recs_view;
use crate::parser::lemma_bases_view;
use crate::parser::strings_view;

verus! {

/// The name of a general register at a width: `al`, `ax`, `eax`, `rax` and so on.
pub open spec fn general_name(t: RegisterType, s: RegisterSize) -> Seq<char> {
    match s {
        RegisterSize::Byte => match t {
            RegisterType::RAX => "al"@,
            RegisterType::RBX => "bl"@,
            RegisterType::RCX => "cl"@,
            RegisterType::RDX => "dl"@,
            RegisterType::RSI => "sil"@,
            RegisterType::RDI => "dil"@,
            RegisterType::RSP => "spl"@,
            RegisterType::RBP => "bpl"@,
        },
        RegisterSize::Word => match t {
            RegisterType::RAX => "ax"@,
            RegisterType::RBX => "bx"@,
            RegisterType::RCX => "cx"@,
            RegisterType::RDX => "dx"@,
            RegisterType::RSI => "si"@,
            RegisterType::RDI => "di"@,
            RegisterType::RSP => "sp"@,
            RegisterType::RBP => "bp"@,
        },
        RegisterSize::DoubleWord => match t {
            RegisterType::RAX => "eax"@,
            RegisterType::RBX => "ebx"@,
            RegisterType::RCX => "ecx"@,
            RegisterType::RDX => "edx"@,
            RegisterType::RSI => "esi"@,
            RegisterType::RDI => "edi"@,
            RegisterType::RSP => "esp"@,
            RegisterType::RBP => "ebp"@,
        },
        RegisterSize::QuadWord => match t {
            RegisterType::RAX => "rax"@,
            RegisterType::RBX => "rbx"@,
            RegisterType::RCX => "rcx"@,
            RegisterType::RDX => "rdx"@,
            RegisterType::RSI => "rsi"@,
            RegisterType::RDI => "rdi"@,
            RegisterType::RSP => "rsp"@,
            RegisterType::RBP => "rbp"@,
        },
    }
}

/// The suffix of a numbered register at a width: `b`, `w`, `d`, or nothing at 64 bits.
pub open spec fn width_suffix(s: RegisterSize) -> Seq<char> {
    match s {
        RegisterSize::Byte => "b"@,
        RegisterSize::Word => "w"@,
        RegisterSize::DoubleWord => "d"@,
        RegisterSize::QuadWord => ""@,
    }
}

/// The name of a register: `rcx`, `r8`, `r9d` and so on.
pub open spec fn register_text(r: Register) -> Seq<char> {
    match r {
        Register::General(t, s) => general_name(t, s),
        Register::Extended(n, s) => "r"@ + nat_digits(n as nat) + width_suffix(s),
    }
}

/// How an operand is written: a register by name, a number in decimal, a label as it
/// is, and an address in square brackets.
pub open spec fn arg_text(a: ArgView) -> Seq<char> {
    match a {
        ArgView::Register(r) => register_text(r),
        ArgView::Immediate(i) => int_text(i as int),
        ArgView::Label(l) => l,
        ArgView::MemoryAddressDirect(m) => "["@ + nat_digits(m as nat) + "]"@,
        ArgView::MemoryAddressRegister(r) => "["@ + register_text(r) + "]"@,
    }
}

fn general_name_str(t: RegisterType, s: RegisterSize) -> (r: &'static str)
    ensures
        r@ == general_name(t, s),
{
    match s {
        RegisterSize::Byte => match t {
            RegisterType::RAX => "al",
            RegisterType::RBX => "bl",
            RegisterType::RCX => "cl",
            RegisterType::RDX => "dl",
            RegisterType::RSI => "sil",
            RegisterType::RDI => "dil",
            RegisterType::RSP => "spl",
            RegisterType::RBP => "bpl",
        },
        RegisterSize::Word => match t {
            RegisterType::RAX => "ax",
            RegisterType::RBX => "bx",
            RegisterType::RCX => "cx",
            RegisterType::RDX => "dx",
            RegisterType::RSI => "si",
            RegisterType::RDI => "di",
            RegisterType::RSP => "sp",
            RegisterType::RBP => "bp",
        },
        RegisterSize::DoubleWord => match t {
            RegisterType::RAX => "eax",
            RegisterType::RBX => "ebx",
            RegisterType::RCX => "ecx",
            RegisterType::RDX => "edx",
            RegisterType::RSI => "esi",
            RegisterType::RDI => "edi",
            RegisterType::RSP => "esp",
            RegisterType::RBP => "ebp",
        },
        RegisterSize::QuadWord => match t {
            RegisterType::RAX => "rax",
            RegisterType::RBX => "rbx",
            RegisterType::RCX => "rcx",
            RegisterType::RDX => "rdx",
            RegisterType::RSI => "rsi",
            RegisterType::RDI => "rdi",
            RegisterType::RSP => "rsp",
            RegisterType::RBP => "rbp",
        },
    }
}

fn width_suffix_str(s: RegisterSize) -> (r: &'static str)
    ensures
        r@ == width_suffix(s),
{
    match s {
        RegisterSize::Byte => "b",
        RegisterSize::Word => "w",
        RegisterSize::DoubleWord => "d",
        RegisterSize::QuadWord => "",
    }
}

/// The decimal text of an unsigned number.
fn u64_text(n: u64) -> (r: String)
    ensures
        r@ == nat_digits(n as nat),
{
    let digits = u64_to_chars(n);
    string_from_chars(digits.as_slice())
}

/// Appends the name of a register.
fn push_register(out: &mut String, r: &Register)
    ensures
        final(out)@ == old(out)@ + register_text(*r),
{
    match r {
        Register::General(t, s) => out.append(general_name_str(*t, *s)),
        Register::Extended(n, s) => {
            out.append("r");
            let digits = u64_text(*n as u64);
            out.append(digits.as_str());
            out.append(width_suffix_str(*s));
        },
    }
}

/// The name of a register, as the listings write it.
pub fn register_to_string(r: &Register) -> (s: String)
    ensures
        s@ == register_text(*r),
{
    let mut s = String::new();
    push_register(&mut s, r);
    s
}

/// Appends how an operand is written.
fn push_argument(out: &mut String, a: &Argument)
    ensures
        final(out)@ == old(out)@ + arg_text(arg_view(*a)),
{
    match a {
        Argument::Register(r) => push_register(out, r),
        Argument::Immediate(i) => {
            let t = i64_to_string(*i);
            out.append(t.as_str());
        },
        Argument::Label(l) => out.append(l.as_str()),
        Argument::MemoryAddressDirect(m) => {
            out.append("[");
            let t = u64_text(*m);
            out.append(t.as_str());
            out.append("]");
        },
        Argument::MemoryAddressRegister(r) => {
            out.append("[");
            push_register(out, r);
            out.append("]");
        },
    }
}

/// How an operand is written in the listings.
pub fn argument_to_string(a: &Argument) -> (s: String)
    ensures
        s@ == arg_text(arg_view(*a)),
{
    let mut s = String::new();
    push_argument(&mut s, a);
    s
}

/// An instruction with a destination and two sources: `NAME d <- x SEP y`.
pub open spec fn three_text(name: Seq<char>, d: ArgView, x: ArgView, sep: Seq<char>, y: ArgView) -> Seq<char> {
    name + " "@ + arg_text(d) + " <- "@ + arg_text(x) + sep + arg_text(y)
}

/// The line of the machine-instruction listing for an instruction. Jump targets are
/// written as `{:?}` writes a string.
pub open spec fn instr_text(i: InstrView) -> Seq<char> {
    match i {
        InstrView::Mov(d, x) => "MOV "@ + arg_text(d) + " <- "@ + arg_text(x),
        InstrView::Add(d, x, y) => three_text("ADD"@, d, x, " + "@, y),
        InstrView::Sub(d, x, y) => three_text("SUB"@, d, x, " - "@, y),
        InstrView::Mul(d, x, y) => three_text("MUL"@, d, x, " * "@, y),
        InstrView::Div(q, r, v, d) => "DIV "@ + arg_text(v) + " / "@ + arg_text(d) + " -> "@ + arg_text(q) + ", "@ + arg_text(r),
        InstrView::Xor(d, x, y) => three_text("XOR"@, d, x, ", "@, y),
        InstrView::And(d, x, y) => three_text("AND"@, d, x, " & "@, y),
        InstrView::Or(d, x, y) => three_text("OR"@, d, x, " | "@, y),
        InstrView::Not(d, x) => "NOT "@ + arg_text(d) + " <- "@ + arg_text(x),
        InstrView::Cmp(x, y) => "CMP "@ + arg_text(x) + " =? "@ + arg_text(y),
        InstrView::Jmp(l) => "JMP "@ + quoted(l),
        InstrView::Je(l) => "JE "@ + quoted(l),
        InstrView::Jne(l) => "JNE "@ + quoted(l),
        InstrView::Jg(l) => "JG "@ + quoted(l),
        InstrView::Jge(l) => "JGE "@ + quoted(l),
        InstrView::Jl(l) => "JL "@ + quoted(l),
        InstrView::Jle(l) => "JLE "@ + quoted(l),
        InstrView::Ret => "RET"@,
        InstrView::Push(x) => "PUSH "@ + arg_text(x),
        InstrView::Pop(x) => "POP "@ + arg_text(x),
        InstrView::Label(l) => l + ":"@,
        InstrView::ExternCall(f) => "EXTERN_CALL "@ + f + " (call rax)"@,
        InstrView::Call(f) => "CALL "@ + f,
        InstrView::Nop => "NOP"@,
        InstrView::ProgramStart => "; Program Start"@,
    }
}

fn push_three(out: &mut String, name: &str, d: &Argument, x: &Argument, sep: &str, y: &Argument)
    ensures
        final(out)@ == old(out)@ + three_text(name@, arg_view(*d), arg_view(*x), sep@, arg_view(*y)),
{
    out.append(name);
    out.append(" ");
    push_argument(out, d);
    out.append(" <- ");
    push_argument(out, x);
    out.append(sep);
    push_argument(out, y);
}

fn push_jump(out: &mut String, name: &str, l: &String)
    ensures
        final(out)@ == old(out)@ + name@ + quoted(l@),
{
    out.append(name);
    let q = quoted_string(l.as_str());
    out.append(q.as_str());
}

/// The line of the machine-instruction listing for an instruction.
pub fn instruction_to_string(i: &Instruction) -> (s: String)
    ensures
        s@ == instr_text(minstr_view(*i)),
{
    let mut s = String::new();
    match i {
        Instruction::Mov(d, x) => {
            s.append("MOV ");
            push_argument(&mut s, d);
            s.append(" <- ");
            push_argument(&mut s, x);
        },
        Instruction::Add(d, x, y) => push_three(&mut s, "ADD", d, x, " + ", y),
        Instruction::Sub(d, x, y) => push_three(&mut s, "SUB", d, x, " - ", y),
        Instruction::Mul(d, x, y) => push_three(&mut s, "MUL", d, x, " * ", y),
        Instruction::Div(q, r, v, d) => {
            s.append("DIV ");
            push_argument(&mut s, v);
            s.append(" / ");
            push_argument(&mut s, d);
            s.append(" -> ");
            push_argument(&mut s, q);
            s.append(", ");
            push_argument(&mut s, r);
        },
        Instruction::Xor(d, x, y) => push_three(&mut s, "XOR", d, x, ", ", y),
        Instruction::And(d, x, y) => push_three(&mut s, "AND", d, x, " & ", y),
        Instruction::Or(d, x, y) => push_three(&mut s, "OR", d, x, " | ", y),
        Instruction::Not(d, x) => {
            s.append("NOT ");
            push_argument(&mut s, d);
            s.append(" <- ");
            push_argument(&mut s, x);
        },
        Instruction::Cmp(x, y) => {
            s.append("CMP ");
            push_argument(&mut s, x);
            s.append(" =? ");
            push_argument(&mut s, y);
        },
        Instruction::Jmp(l) => push_jump(&mut s, "JMP ", l),
        Instruction::Je(l) => push_jump(&mut s, "JE ", l),
        Instruction::Jne(l) => push_jump(&mut s, "JNE ", l),
        Instruction::Jg(l) => push_jump(&mut s, "JG ", l),
        Instruction::Jge(l) => push_jump(&mut s, "JGE ", l),
        Instruction::Jl(l) => push_jump(&mut s, "JL ", l),
        Instruction::Jle(l) => push_jump(&mut s, "JLE ", l),
        Instruction::Ret => s.append("RET"),
        Instruction::Push(x) => {
            s.append("PUSH ");
            push_argument(&mut s, x);
        },
        Instruction::Pop(x) => {
            s.append("POP ");
            push_argument(&mut s, x);
        },
        Instruction::Label(l) => {
            s.append(l.as_str());
            s.append(":");
        },
        Instruction::ExternCall(f) => {
            s.append("EXTERN_CALL ");
            s.append(f.as_str());
            s.append(" (call rax)");
        },
        Instruction::Call(f) => {
            s.append("CALL ");
            s.append(f.as_str());
        },
        Instruction::Nop => s.append("NOP"),
        Instruction::ProgramStart => s.append("; Program Start"),
    }
    s
}

/// An x86 instruction with two operands: `NAME a b`.
pub open spec fn two_text(name: Seq<char>, a: ArgView, b: ArgView) -> Seq<char> {
    name + " "@ + arg_text(a) + " "@ + arg_text(b)
}

/// The line of the assembly listing for an x86 instruction.
pub open spec fn asm_text(i: AsmView) -> Seq<char> {
    match i {
        AsmView::Mov(a, b) => two_text("MOV"@, a, b),
        AsmView::Add(a, b) => two_text("ADD"@, a, b),
        AsmView::Sub(a, b) => two_text("SUB"@, a, b),
        AsmView::Mul(a, b) => two_text("MUL"@, a, b),
        AsmView::Div(a) => "DIV "@ + arg_text(a),
        AsmView::Xor(a, b) => two_text("XOR"@, a, b),
        AsmView::And(a, b) => two_text("AND"@, a, b),
        AsmView::Or(a, b) => two_text("OR"@, a, b),
        AsmView::Not(a) => "NOT "@ + arg_text(a),
        AsmView::Cmp(a, b) => two_text("CMP"@, a, b),
        AsmView::Jmp(l) => "JMP "@ + l,
        AsmView::Je(l) => "JE "@ + l,
        AsmView::Jne(l) => "JNE "@ + l,
        AsmView::Jg(l) => "JG "@ + l,
        AsmView::Jge(l) => "JGE "@ + l,
        AsmView::Jl(l) => "JL "@ + l,
        AsmView::Jle(l) => "JLE "@ + l,
        AsmView::Ret => "RET"@,
        AsmView::Push(a) => "PUSH "@ + arg_text(a),
        AsmView::Pop(a) => "POP "@ + arg_text(a),
        AsmView::Label(l) => l + ":"@,
        AsmView::ExternCall(f) => "EXTERN_CALL "@ + f,
        AsmView::Call(f) => "CALL "@ + f,
        AsmView::Nop => "NOP"@,
        AsmView::ProgramStart => "; Program Start"@,
        AsmView::Comment(c) => "; "@ + c,
    }
}

fn push_two(out: &mut String, name: &str, a: &Argument, b: &Argument)
    ensures
        final(out)@ == old(out)@ + two_text(name@, arg_view(*a), arg_view(*b)),
{
    out.append(name);
    out.append(" ");
    push_argument(out, a);
    out.append(" ");
    push_argument(out, b);
}

fn push_named(out: &mut String, name: &str, x: &String)
    ensures
        final(out)@ == old(out)@ + name@ + x@,
{
    out.append(name);
    out.append(x.as_str());
}

fn push_one(out: &mut String, name: &str, a: &Argument)
    ensures
        final(out)@ == old(out)@ + name@ + arg_text(arg_view(*a)),
{
    out.append(name);
    push_argument(out, a);
}

/// The line of the assembly listing for an x86 instruction.
pub fn assembly_instruction_to_string(i: &AssemblyInstruction) -> (s: String)
    ensures
        s@ == asm_text(asm_view(*i)),
{
    let mut s = String::new();
    match i {
        AssemblyInstruction::Mov(a, b) => push_two(&mut s, "MOV", a, b),
        AssemblyInstruction::Add(a, b) => push_two(&mut s, "ADD", a, b),
        AssemblyInstruction::Sub(a, b) => push_two(&mut s, "SUB", a, b),
        AssemblyInstruction::Mul(a, b) => push_two(&mut s, "MUL", a, b),
        AssemblyInstruction::Div(a) => push_one(&mut s, "DIV ", a),
        AssemblyInstruction::Xor(a, b) => push_two(&mut s, "XOR", a, b),
        AssemblyInstruction::And(a, b) => push_two(&mut s, "AND", a, b),
        AssemblyInstruction::Or(a, b) => push_two(&mut s, "OR", a, b),
        AssemblyInstruction::Not(a) => push_one(&mut s, "NOT ", a),
        AssemblyInstruction::Cmp(a, b) => push_two(&mut s, "CMP", a, b),
        AssemblyInstruction::Jmp(l) => push_named(&mut s, "JMP ", l),
        AssemblyInstruction::Je(l) => push_named(&mut s, "JE ", l),
        AssemblyInstruction::Jne(l) => push_named(&mut s, "JNE ", l),
        AssemblyInstruction::Jg(l) => push_named(&mut s, "JG ", l),
        AssemblyInstruction::Jge(l) => push_named(&mut s, "JGE ", l),
        AssemblyInstruction::Jl(l) => push_named(&mut s, "JL ", l),
        AssemblyInstruction::Jle(l) => push_named(&mut s, "JLE ", l),
        AssemblyInstruction::Ret => s.append("RET"),
        AssemblyInstruction::Push(a) => push_one(&mut s, "PUSH ", a),
        AssemblyInstruction::Pop(a) => push_one(&mut s, "POP ", a),
        AssemblyInstruction::Label(l) => {
            s.append(l.as_str());
            s.append(":");
        },
        AssemblyInstruction::ExternCall(f) => push_named(&mut s, "EXTERN_CALL ", f),
        AssemblyInstruction::Call(f) => push_named(&mut s, "CALL ", f),
        AssemblyInstruction::Nop => s.append("NOP"),
        AssemblyInstruction::ProgramStart => s.append("; Program Start"),
        AssemblyInstruction::Comment(c) => push_named(&mut s, "; ", c),
    }
    s
}

/// `n` copies of `c`.
pub open spec fn repeat_char(c: char, n: nat) -> Seq<char>
    decreases n,
{
    if n == 0 {
        seq![]
    } else {
        repeat_char(c, (n - 1) as nat).push(c)
    }
}

/// The line under a source line that marks columns `col_start` up to `col_end`.
pub open spec fn marker_text(col_start: nat, col_end: nat) -> Seq<char> {
    repeat_char(' ', col_start) + repeat_char('^', (col_end - col_start) as nat)
}

/// ` (line R, col C)`, counting lines and columns from one.
pub open spec fn place_text(row: nat, col_start: nat) -> Seq<char> {
    " (line "@ + nat_digits(row + 1) + ", col "@ + nat_digits(col_start + 1) + ")"@
}

/// Whether an error can be reported against the given source lines: an error with a
/// place points at one of them, and its columns are in order.
pub open spec fn reportable(e: Error, lines: Seq<Seq<char>>) -> bool {
    match e {
        Error::SimpleError { .. } => true,
        Error::LocationError { row, col_start, col_end, .. } =>
            row < lines.len() && col_start <= col_end && col_start < usize::MAX,
        Error::TypeError { row, col_start, col_end, .. } =>
            row < lines.len() && col_start <= col_end && col_start < usize::MAX,
    }
}

/// The lines that report an error: the message alone; or, for an error with a place,
/// the source line, a line of `^` under the marked columns, and the message with the
/// line and column; a type error adds the expected and the found type.
pub open spec fn error_report_text(e: Error, lines: Seq<Seq<char>>) -> Seq<Seq<char>> {
    match e {
        Error::SimpleError { message } => seq!["Error: "@ + message@],
        Error::LocationError { message, row, col_start, col_end } => seq![
            lines[row as int],
            marker_text(col_start as nat, col_end as nat),
            "Error: "@ + message@ + place_text(row as nat, col_start as nat),
        ],
        Error::TypeError { message, expected, found, row, col_start, col_end } => seq![
            lines[row as int],
            marker_text(col_start as nat, col_end as nat),
            "Type error: "@ + message@ + place_text(row as nat, col_start as nat),
            "Expected type: "@ + type_text(expected),
            "Found type: "@ + type_text(found),
        ],
    }
}

fn push_repeated(out: &mut String, c: char, n: usize)
    ensures
        final(out)@ == old(out)@ + repeat_char(c, n as nat),
{
    let ghost start = out@;
    let mut i: usize = 0;
    while i < n
        invariant
            i <= n,
            out@ == start + repeat_char(c, i as nat),
        decreases n - i,
    {
        push_char(out, c);
        i = i + 1;
        assert(repeat_char(c, i as nat) == repeat_char(c, (i - 1) as nat).push(c));
    }
}

fn marker_string(col_start: usize, col_end: usize) -> (s: String)
    requires
        col_start <= col_end,
    ensures
        s@ == marker_text(col_start as nat, col_end as nat),
{
    let mut s = String::new();
    push_repeated(&mut s, ' ', col_start);
    push_repeated(&mut s, '^', col_end - col_start);
    s
}

fn place_string(row: usize, col_start: usize) -> (s: String)
    requires
        row < usize::MAX,
        col_start < usize::MAX,
    ensures
        s@ == place_text(row as nat, col_start as nat),
{
    let mut s = String::new();
    s.append(" (line ");
    let r = u64_text((row + 1) as u64);
    s.append(r.as_str());
    s.append(", col ");
    let c = u64_text((col_start + 1) as u64);
    s.append(c.as_str());
    s.append(")");
    s
}

fn prefixed(prefix: &str, rest: &String) -> (s: String)
    ensures
        s@ == prefix@ + rest@,
{
    let mut s = String::new();
    s.append(prefix);
    s.append(rest.as_str());
    s
}

/// The lines that report an error against the source lines it came from.
pub fn error_report(e: &Error, lines: &Vec<&str>) -> (r: Vec<String>)
    requires
        reportable(*e, lines_view(lines@)),
    ensures
        r@.map_values(|s: String| s@) == error_report_text(*e, lines_view(lines@)),
{
    let mut r: Vec<String> = Vec::new();
    let n = lines.len();
    assert(lines_view(lines@).len() == n);
    match e {
        Error::SimpleError { message } => {
            r.push(prefixed("Error: ", message));
        },
        Error::LocationError { message, row, col_start, col_end } => {
            r.push(String::from_str(lines[*row]));
            r.push(marker_string(*col_start, *col_end));
            let mut m = prefixed("Error: ", message);
            let p = place_string(*row, *col_start);
            m.append(p.as_str());
            r.push(m);
        },
        Error::TypeError { message, expected, found, row, col_start, col_end } => {
            r.push(String::from_str(lines[*row]));
            r.push(marker_string(*col_start, *col_end));
            let mut m = prefixed("Type error: ", message);
            let p = place_string(*row, *col_start);
            m.append(p.as_str());
            r.push(m);
            let t = type_to_string(expected);
            r.push(prefixed("Expected type: ", &t));
            let t = type_to_string(found);
            r.push(prefixed("Found type: ", &t));
        },
    }
    assert(r@.map_values(|s: String| s@) =~= error_report_text(*e, lines_view(lines@)));
    r
}

/// How a binary operator is written between its operands, with a space on each side.
pub open spec fn bin_op_text(k: BinaryKind) -> Seq<char> {
    match k {
        BinaryKind::Add => " + "@,
        BinaryKind::Subtract => " - "@,
        BinaryKind::Multiply => " * "@,
        BinaryKind::Divide => " / "@,
        BinaryKind::Power => " ^ "@,
        BinaryKind::Or => " or "@,
        BinaryKind::And => " and "@,
        BinaryKind::Equals => " == "@,
        BinaryKind::NotEquals => " != "@,
        BinaryKind::GreaterThan => " > "@,
        BinaryKind::LessThan => " < "@,
        BinaryKind::GreaterThanOrEqual => " >= "@,
        BinaryKind::LessThanOrEqual => " <= "@,
    }
}

/// How the debug output writes an expression: leaves by kind (`Var("a")`, `Num(1)`,
/// `Str("s")`, `Bool(true)`), and every operation in parentheses.
pub open spec fn rec_text<T>(e: RecExprView<T>) -> Seq<char>
    decreases rec_size(e), 1nat,
{
    match e.data {
        RecExprDataView::Variable(n) => "Var("@ + quoted(n) + ")"@,
        RecExprDataView::Number(k) => "Num("@ + int_text(k as int) + ")"@,
        RecExprDataView::Str(v) => "Str("@ + quoted(v) + ")"@,
        RecExprDataView::Boolean(b) => "Bool("@ + (if b { "true"@ } else { "false"@ }) + ")"@,
        RecExprDataView::Assign(n, r) => "Var("@ + quoted(n) + ") = "@ + rec_text(*r),
        RecExprDataView::Binary(k, l, r) => "("@ + rec_text(*l) + bin_op_text(k) + rec_text(*r) + ")"@,
        RecExprDataView::Minus(r) => "(- "@ + rec_text(*r) + ")"@,
        RecExprDataView::Not(r) => "(not "@ + rec_text(*r) + ")"@,
        RecExprDataView::Access(o, v) => quoted(o) + "."@ + quoted(v),
        RecExprDataView::FunctionCall(f, args) => "Call("@ + quoted(f) + " with ("@ + items_text(args) + "))"@,
        RecExprDataView::List(els) => "["@ + items_text(els) + "]"@,
        RecExprDataView::ListAccess(v, i) => quoted(v) + "["@ + rec_text(*i) + "]"@,
    }
}

/// Each expression of a sequence, followed by `, `.
pub open spec fn items_text<T>(s: Seq<RecExprView<T>>) -> Seq<char>
    decreases recs_size(s), 0nat,
{
    if s.len() == 0 {
        seq![]
    } else {
        proof {
            lemma_recs_size(s.drop_last());
            assert(recs_size(s) == recs_size(s.drop_last()) + rec_size(s.last()));
        }
        items_text(s.drop_last()) + rec_text(s.last()) + ", "@
    }
}

/// The next indentation level, which stays put at the largest index.
pub open spec fn deeper(ind: nat) -> nat {
    if ind < usize::MAX { ind + 1 } else { ind }
}

/// Two spaces per indentation level.
pub open spec fn indent_text(ind: nat) -> Seq<char>
    decreases ind,
{
    if ind == 0 {
        seq![]
    } else {
        indent_text((ind - 1) as nat) + "  "@
    }
}

/// Names separated by `, `.
pub open spec fn params_text(s: Seq<Seq<char>>) -> Seq<char>
    decreases s.len(),
{
    if s.len() == 0 {
        seq![]
    } else if s.len() == 1 {
        s[0]
    } else {
        params_text(s.drop_last()) + ", "@ + s.last()
    }
}

/// How the debug output writes a statement at an indentation level. The body of a
/// block follows at the next level; the `else` part of a conditional is not written.
pub open spec fn stmt_text<T>(b: BaseExprView<T>, ind: nat) -> Seq<char>
    decreases stmt_size(b), 1nat,
{
    indent_text(ind) + match b.data {
        BaseExprDataView::Simple(e) => rec_text(e),
        BaseExprDataView::VariableAssignment(v, e) => "VarAssign("@ + quoted(v) + ", "@ + rec_text(e) + ")"@,
        BaseExprDataView::PlusEquals(v, e) => "PlusEquals("@ + quoted(v) + ", "@ + rec_text(e) + ")"@,
        BaseExprDataView::If(c, body, _) => "IfSt("@ + rec_text(c) + ")\n"@ + stmts_text(body, deeper(ind)),
        BaseExprDataView::ElseIf(c, body, _) => "ElseIfSt("@ + rec_text(c) + ")"@ + stmts_text(body, deeper(ind)),
        BaseExprDataView::Else(body) => "ElseSt("@ + stmts_text(body, deeper(ind)) + ")"@,
        BaseExprDataView::ForLoop(v, u, body) =>
            "For("@ + quoted(v) + " in "@ + rec_text(u) + "\n"@ + stmts_text(body, deeper(ind)) + ")"@,
        BaseExprDataView::FunctionDefinition(f, args, body) =>
            "fun "@ + f + "("@ + params_text(args) + ")\n"@ + stmts_text(body, deeper(ind)),
        BaseExprDataView::Return(r) => "Return("@ + (match r {
            Some(e) => rec_text(e),
            None => seq![],
        }) + ")"@,
        BaseExprDataView::Break => "break"@,
    }
}

/// Statements written one after the other at an indentation level.
pub open spec fn stmts_text<T>(s: Seq<BaseExprView<T>>, ind: nat) -> Seq<char>
    decreases stmts_size(s), 0nat,
{
    if s.len() == 0 {
        seq![]
    } else {
        proof {
            lemma_stmts_size(s.drop_last());
            assert(stmts_size(s) == stmts_size(s.drop_last()) + stmt_size(s.last()));
        }
        stmts_text(s.drop_last(), ind) + stmt_text(s.last(), ind)
    }
}

/// Top-level statements, each followed by a newline.
pub open spec fn program_text<T>(s: Seq<BaseExprView<T>>) -> Seq<char>
    decreases s.len(),
{
    if s.len() == 0 {
        seq![]
    } else {
        program_text(s.drop_last()) + stmt_text(s.last(), 0) + "\n"@
    }
}

fn push_quoted(out: &mut String, s: &String)
    ensures
        final(out)@ == old(out)@ + quoted(s@),
{
    let q = quoted_string(s.as_str());
    out.append(q.as_str());
}

fn bin_op_str(k: BinaryKind) -> (r: &'static str)
    ensures
        r@ == bin_op_text(k),
{
    match k {
        BinaryKind::Add => " + ",
        BinaryKind::Subtract => " - ",
        BinaryKind::Multiply => " * ",
        BinaryKind::Divide => " / ",
        BinaryKind::Power => " ^ ",
        BinaryKind::Or => " or ",
        BinaryKind::And => " and ",
        BinaryKind::Equals => " == ",
        BinaryKind::NotEquals => " != ",
        BinaryKind::GreaterThan => " > ",
        BinaryKind::LessThan => " < ",
        BinaryKind::GreaterThanOrEqual => " >= ",
        BinaryKind::LessThanOrEqual => " <= ",
    }
}

fn push_bin<T>(out: &mut String, l: &RecExpr<T>, k: BinaryKind, r: &RecExpr<T>)
    ensures
        final(out)@ == old(out)@ + "("@ + rec_text(rec_view(*l)) + bin_op_text(k) + rec_text(rec_view(*r)) + ")"@,
    decreases 1 + rec_size(rec_view(*l)) + rec_size(rec_view(*r)), 0nat,
{
    out.append("(");
    push_rec(out, l);
    out.append(bin_op_str(k));
    push_rec(out, r);
    out.append(")");
}

#[verifier::rlimit(60)]
fn push_rec<T>(out: &mut String, e: &RecExpr<T>)
    ensures
        final(out)@ == old(out)@ + rec_text(rec_view(*e)),
    decreases rec_size(rec_view(*e)), 1nat,
{
    match &e.data {
        RecExprData::Variable { name } => {
            out.append("Var(");
            push_quoted(out, name);
            out.append(")");
        },
        RecExprData::Number { number } => {
            out.append("Num(");
            let t = i32_to_string(*number);
            out.append(t.as_str());
            out.append(")");
        },
        RecExprData::String { value } => {
            out.append("Str(");
            push_quoted(out, value);
            out.append(")");
        },
        RecExprData::Boolean { value } => {
            out.append("Bool(");
            out.append(if *value { "true" } else { "false" });
            out.append(")");
        },
        RecExprData::Assign { variable_name, right } => {
            out.append("Var(");
            push_quoted(out, variable_name);
            out.append(") = ");
            push_rec(out, &**right);
        },
        RecExprData::Add { left, right } => push_bin(out, &**left, BinaryKind::Add, &**right),
        RecExprData::Subtract { left, right } => push_bin(out, &**left, BinaryKind::Subtract, &**right),
        RecExprData::Multiply { left, right } => push_bin(out, &**left, BinaryKind::Multiply, &**right),
        RecExprData::Divide { left, right } => push_bin(out, &**left, BinaryKind::Divide, &**right),
        RecExprData::Power { left, right } => push_bin(out, &**left, BinaryKind::Power, &**right),
        RecExprData::Or { left, right } => push_bin(out, &**left, BinaryKind::Or, &**right),
        RecExprData::And { left, right } => push_bin(out, &**left, BinaryKind::And, &**right),
        RecExprData::Equals { left, right } => push_bin(out, &**left, BinaryKind::Equals, &**right),
        RecExprData::NotEquals { left, right } => push_bin(out, &**left, BinaryKind::NotEquals, &**right),
        RecExprData::GreaterThan { left, right } => push_bin(out, &**left, BinaryKind::GreaterThan, &**right),
        RecExprData::LessThan { left, right } => push_bin(out, &**left, BinaryKind::LessThan, &**right),
        RecExprData::GreaterThanOrEqual { left, right } => push_bin(out, &**left, BinaryKind::GreaterThanOrEqual, &**right),
        RecExprData::LessThanOrEqual { left, right } => push_bin(out, &**left, BinaryKind::LessThanOrEqual, &**right),
        RecExprData::Minus { right } => {
            out.append("(- ");
            push_rec(out, &**right);
            out.append(")");
        },
        RecExprData::Not { right } => {
            out.append("(not ");
            push_rec(out, &**right);
            out.append(")");
        },
        RecExprData::Access { object, variable } => {
            push_quoted(out, object);
            out.append(".");
            push_quoted(out, variable);
        },
        RecExprData::FunctionCall { function_name, args } => {
            out.append("Call(");
            push_quoted(out, function_name);
            out.append(" with (");
            push_items(out, args);
            out.append("))");
        },
        RecExprData::List { elements } => {
            out.append("[");
            push_items(out, elements);
            out.append("]");
        },
        RecExprData::ListAccess { variable, index } => {
            push_quoted(out, variable);
            out.append("[");
            push_rec(out, &**index);
            out.append("]");
        },
    }
}

fn push_items<T>(out: &mut String, v: &Vec<RecExpr<T>>)
    ensures
        final(out)@ == old(out)@ + items_text(recs_view(v@)),
    decreases recs_size(recs_view(v@)), 0nat,
{
    let ghost sv = recs_view(v@);
    let ghost start = out@;
    proof {
        lemma_recs_view(v@);
        lemma_recs_size(sv);
        assert(sv.subrange(0, 0) =~= Seq::<RecExprView<T>>::empty());
    }
    let mut i: usize = 0;
    while i < v.len()
        invariant
            sv == recs_view(v@),
            sv.len() == v@.len(),
            i <= v@.len(),
            forall|j: int| 0 <= j < v@.len() ==> #[trigger] sv[j] == rec_view(v@[j]),
            forall|j: int| 0 <= j < sv.len() ==> rec_size(#[trigger] sv[j]) < recs_size(sv),
            out@ == start + items_text(sv.subrange(0, i as int)),
        decreases v@.len() - i,
    {
        assert(sv.subrange(0, i + 1).drop_last() =~= sv.subrange(0, i as int));
        assert(sv.subrange(0, i + 1).last() == sv[i as int]);
        assert(rec_size(sv[i as int]) < recs_size(sv));
        push_rec(out, &v[i]);
        out.append(", ");
        i = i + 1;
    }
    assert(sv.subrange(0, v@.len() as int) =~= sv);
}

fn push_indent(out: &mut String, ind: usize)
    ensures
        final(out)@ == old(out)@ + indent_text(ind as nat),
{
    let ghost start = out@;
    let mut i: usize = 0;
    while i < ind
        invariant
            i <= ind,
            out@ == start + indent_text(i as nat),
        decreases ind - i,
    {
        out.append("  ");
        i = i + 1;
    }
}

fn push_params(out: &mut String, ps: &Vec<String>)
    ensures
        final(out)@ == old(out)@ + params_text(strings_view(ps@)),
{
    let ghost sv = strings_view(ps@);
    let ghost start = out@;
    let mut i: usize = 0;
    assert(sv.subrange(0, 0) =~= Seq::<Seq<char>>::empty());
    while i < ps.len()
        invariant
            sv == strings_view(ps@),
            sv.len() == ps@.len(),
            i <= ps@.len(),
            out@ == start + params_text(sv.subrange(0, i as int)),
        decreases ps@.len() - i,
    {
        assert(sv.subrange(0, i + 1).drop_last() =~= sv.subrange(0, i as int));
        if i > 0 {
            out.append(", ");
        } else {
            assert(sv.subrange(0, 1)[0] == sv[0]);
        }
        out.append(ps[i].as_str());
        i = i + 1;
    }
    assert(sv.subrange(0, ps@.len() as int) =~= sv);
}

fn deeper_exec(ind: usize) -> (r: usize)
    ensures
        r as nat == deeper(ind as nat),
{
    if ind < usize::MAX { ind + 1 } else { ind }
}

#[verifier::rlimit(60)]
fn push_stmt<T>(out: &mut String, b: &BaseExpr<T>, ind: usize)
    ensures
        final(out)@ == old(out)@ + stmt_text(base_view(*b), ind as nat),
    decreases stmt_size(base_view(*b)), 1nat,
{
    push_indent(out, ind);
    let d = deeper_exec(ind);
    match &b.data {
        BaseExprData::Simple { expr } => push_rec(out, expr),
        BaseExprData::VariableAssignment { var_name, expr } => {
            out.append("VarAssign(");
            push_quoted(out, var_name);
            out.append(", ");
            push_rec(out, expr);
            out.append(")");
        },
        BaseExprData::PlusEqualsStatement { var_name, expr } => {
            out.append("PlusEquals(");
            push_quoted(out, var_name);
            out.append(", ");
            push_rec(out, expr);
            out.append(")");
        },
        BaseExprData::IfStatement { condition, body, .. } => {
            out.append("IfSt(");
            push_rec(out, condition);
            out.append(")\n");
            push_stmts(out, body, d);
        },
        BaseExprData::ElseIfStatement { condition, body, .. } => {
            out.append("ElseIfSt(");
            push_rec(out, condition);
            out.append(")");
            push_stmts(out, body, d);
        },
        BaseExprData::ElseStatement { body } => {
            out.append("ElseSt(");
            push_stmts(out, body, d);
            out.append(")");
        },
        BaseExprData::ForLoop { var_name, until, body } => {
            out.append("For(");
            push_quoted(out, var_name);
            out.append(" in ");
            push_rec(out, until);
            out.append("\n");
            push_stmts(out, body, d);
            out.append(")");
        },
        BaseExprData::FunctionDefinition { fun_name, args, body } => {
            out.append("fun ");
            out.append(fun_name.as_str());
            out.append("(");
            push_params(out, args);
            out.append(")\n");
            push_stmts(out, body, d);
        },
        BaseExprData::Return { return_value } => {
            out.append("Return(");
            match return_value {
                Some(e) => push_rec(out, e),
                None => {},
            }
            out.append(")");
        },
        BaseExprData::Break => out.append("break"),
    }
}

fn push_stmts<T>(out: &mut String, v: &Vec<BaseExpr<T>>, ind: usize)
    ensures
        final(out)@ == old(out)@ + stmts_text(bases_view(v@), ind as nat),
    decreases stmts_size(bases_view(v@)), 0nat,
{
    let ghost sv = bases_view(v@);
    let ghost start = out@;
    proof {
        lemma_bases_view(v@);
        lemma_stmts_size(sv);
        assert(sv.subrange(0, 0) =~= Seq::<BaseExprView<T>>::empty());
    }
    let mut i: usize = 0;
    while i < v.len()
        invariant
            sv == bases_view(v@),
            sv.len() == v@.len(),
            i <= v@.len(),
            forall|j: int| 0 <= j < v@.len() ==> #[trigger] sv[j] == base_view(v@[j]),
            forall|j: int| 0 <= j < sv.len() ==> stmt_size(#[trigger] sv[j]) < stmts_size(sv),
            out@ == start + stmts_text(sv.subrange(0, i as int), ind as nat),
        decreases v@.len() - i,
    {
        assert(sv.subrange(0, i + 1).drop_last() =~= sv.subrange(0, i as int));
        assert(sv.subrange(0, i + 1).last() == sv[i as int]);
        assert(stmt_size(sv[i as int]) < stmts_size(sv));
        push_stmt(out, &v[i], ind);
        i = i + 1;
    }
    assert(sv.subrange(0, v@.len() as int) =~= sv);
}

/// The debug output of parsed statements: each written at the left margin, with the
/// bodies of blocks indented below it, and followed by a newline.
pub fn expressions_to_string<T>(v: &Vec<BaseExpr<T>>) -> (s: String)
    ensures
        s@ == program_text(bases_view(v@)),
{
    let ghost sv = bases_view(v@);
    proof {
        lemma_bases_view(v@);
        assert(sv.subrange(0, 0) =~= Seq::<BaseExprView<T>>::empty());
    }
    let mut s = String::new();
    let mut i: usize = 0;
    while i < v.len()
        invariant
            sv == bases_view(v@),
            sv.len() == v@.len(),
            i <= v@.len(),
            forall|j: int| 0 <= j < v@.len() ==> #[trigger] sv[j] == base_view(v@[j]),
            s@ == program_text(sv.subrange(0, i as int)),
        decreases v@.len() - i,
    {
        assert(sv.subrange(0, i + 1).drop_last() =~= sv.subrange(0, i as int));
        assert(sv.subrange(0, i + 1).last() == sv[i as int]);
        push_stmt(&mut s, &v[i], 0);
        s.append("\n");
        i = i + 1;
    }
    assert(sv.subrange(0, v@.len() as int) =~= sv);
    s
}

/// How the debug output writes a token: `Var("a")`, `Num(1)`, `Str("s")`, or `Sym`
/// followed by the symbol's text.
pub open spec fn token_text(t: TokenDataView) -> Seq<char> {
    match t {
        TokenDataView::Variable(n) => "Var("@ + quoted(n) + ")"@,
        TokenDataView::Number(k) => "Num("@ + int_text(k as int) + ")"@,
        TokenDataView::Str(v) => "Str("@ + quoted(v) + ")"@,
        TokenDataView::Symbol(s) => "Sym"@ + symbol_text(s),
    }
}

/// Tokens, each followed by a space.
pub open spec fn tokens_text(ts: Seq<TokenDataView>) -> Seq<char>
    decreases ts.len(),
{
    if ts.len() == 0 {
        seq![]
    } else {
        tokens_text(ts.drop_last()) + token_text(ts.last()) + " "@
    }
}

/// How the debug output writes a token.
pub fn token_to_string(t: &Token) -> (s: String)
    ensures
        s@ == token_text(t.data@),
{
    let mut s = String::new();
    match &t.data {
        TokenData::Variable { name } => {
            s.append("Var(");
            push_quoted(&mut s, name);
            s.append(")");
        },
        TokenData::Number { number } => {
            s.append("Num(");
            let n = i32_to_string(*number);
            s.append(n.as_str());
            s.append(")");
        },
        TokenData::String { value } => {
            s.append("Str(");
            push_quoted(&mut s, value);
            s.append(")");
        },
        TokenData::Symbol { symbol_type } => {
            s.append("Sym");
            let t = get_symbol_from_type(symbol_type);
            s.append(t.as_str());
        },
    }
    s
}

/// How the debug output writes the tokens of a line: each followed by a space, and a
/// newline at the end.
pub fn token_line_to_string(line: &TokenLine) -> (s: String)
    ensures
        s@ == tokens_text(line.tokens@.map_values(|t: Token| t.data@)) + "\n"@,
{
    let ghost ts = line.tokens@.map_values(|t: Token| t.data@);
    let mut body = String::new();
    let mut i: usize = 0;
    assert(ts.subrange(0, 0) =~= Seq::<TokenDataView>::empty());
    while i < line.tokens.len()
        invariant
            ts == line.tokens@.map_values(|t: Token| t.data@),
            i <= line.tokens@.len(),
            body@ == tokens_text(ts.subrange(0, i as int)),
        decreases line.tokens@.len() - i,
    {
        assert(ts.subrange(0, i + 1).drop_last() =~= ts.subrange(0, i as int));
        assert(ts.subrange(0, i + 1).last() == line.tokens@[i as int].data@);
        let t = token_to_string(&line.tokens[i]);
        body.append(t.as_str());
        body.append(" ");
        i = i + 1;
    }
    assert(ts.subrange(0, line.tokens@.len() as int) =~= ts);
    body.append("\n");
    body
}

} // verus!
