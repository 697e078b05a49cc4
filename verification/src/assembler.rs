//! Encoding x86-64 instructions as machine code, with jumps and calls resolved to their
//! labels.
use vstd::prelude::*;
use crate::tokenizer::Error;
use crate::codegenerator::Argument;
use crate::codegenerator::ArgView;
use crate::codegenerator::Register;
use crate::codegenerator::RegisterType;
use crate::codegenerator::RegisterSize;
use crate::instructionsimplifier::AssemblyInstruction;
use crate::instructionsimplifier::AsmView;
use crate::instructionsimplifier::asm_view;
use crate::instructionsimplifier::asms_view;
use crate::exewriter::write_at_bytes;
use crate::exewriter::written_at;
use crate::registerallocation::variableclassifier::assoc_is;
use crate::registerallocation::variableclassifier::assoc_set;

verus! {

/// Whether a register can be encoded: a classic one or one of `r8` to `r15`.
pub open spec fn encodable(r: Register) -> bool {
    match r {
        Register::General(_, _) => true,
        Register::Extended(n, _) => 8 <= n <= 15,
    }
}

/// The three low bits that name a register.
pub open spec fn reg_code(r: Register) -> int {
    match r {
        Register::General(t, _) => match t {
            RegisterType::RAX => 0,
            RegisterType::RCX => 1,
            RegisterType::RDX => 2,
            RegisterType::RBX => 3,
            RegisterType::RSP => 4,
            RegisterType::RBP => 5,
            RegisterType::RSI => 6,
            RegisterType::RDI => 7,
        },
        Register::Extended(n, _) => n - 8,
    }
}

/// Whether a register needs the REX extension bit.
pub open spec fn extended(r: Register) -> bool {
    r is Extended
}

/// The width a register is used at.
pub open spec fn reg_size(r: Register) -> RegisterSize {
    match r {
        Register::General(_, s) => s,
        Register::Extended(_, s) => s,
    }
}

/// The REX prefix with the W, R, X and B bits.
pub open spec fn rex(w: bool, r: bool, x: bool, b: bool) -> u8 {
    (64 + (if w { 8int } else { 0 }) + (if r { 4int } else { 0 }) + (if x { 2int } else { 0 }) + (if b { 1int } else { 0 })) as u8
}

/// The ModR/M byte with its mode, register and r/m fields.
pub open spec fn modrm(md: int, reg: int, rm: int) -> u8 {
    (64 * md + 8 * reg + rm) as u8
}

/// The four bytes of a 32-bit value, least significant first.
pub open spec fn le32(v: u32) -> Seq<u8> {
    seq![(v % 256) as u8, ((v / 256) % 256) as u8, ((v / 65536) % 256) as u8, ((v / 16777216) % 256) as u8]
}

/// The eight bytes of a 64-bit value, least significant first.
pub open spec fn le64(v: u64) -> Seq<u8> {
    le32((v % 4294967296) as u32) + le32((v / 4294967296) as u32)
}

/// Whether every register an operand names can be encoded.
pub open spec fn arg_encodable(a: ArgView) -> bool {
    match a {
        ArgView::Register(r) => encodable(r),
        ArgView::MemoryAddressRegister(r) => encodable(r),
        _ => true,
    }
}

/// Whether every register an instruction names can be encoded.
pub open spec fn instr_encodable(i: AsmView) -> bool {
    match i {
        AsmView::Mov(a, b) => arg_encodable(a) && arg_encodable(b),
        AsmView::Add(a, b) => arg_encodable(a) && arg_encodable(b),
        AsmView::Sub(a, b) => arg_encodable(a) && arg_encodable(b),
        AsmView::Mul(a, b) => arg_encodable(a) && arg_encodable(b),
        AsmView::Div(a) => arg_encodable(a),
        AsmView::Xor(a, b) => arg_encodable(a) && arg_encodable(b),
        AsmView::And(a, b) => arg_encodable(a) && arg_encodable(b),
        AsmView::Or(a, b) => arg_encodable(a) && arg_encodable(b),
        AsmView::Not(a) => arg_encodable(a),
        AsmView::Cmp(a, b) => arg_encodable(a) && arg_encodable(b),
        AsmView::Push(a) => arg_encodable(a),
        AsmView::Pop(a) => arg_encodable(a),
        _ => true,
    }
}

/// A register-to-register instruction with the given opcode: REX.W, the opcode, and the
/// source in the register field.
pub open spec fn rr(op: u8, dst: Register, src: Register) -> Seq<u8> {
    seq![rex(true, extended(src), false, extended(dst)), op, modrm(3, reg_code(src), reg_code(dst))]
}

/// A register-and-immediate instruction of group 0x81 with the given sub-opcode.
pub open spec fn ri(ext: int, r: Register, imm: i64) -> Seq<u8> {
    seq![rex(true, false, false, extended(r)), 0x81u8, modrm(3, ext, reg_code(r))] + le32(imm as u32)
}

/// The machine code of an instruction that needs no label, where its operands are
/// supported.
pub open spec fn encode(i: AsmView) -> Option<Seq<u8>> {
    match i {
        AsmView::Mov(d, s) => match (d, s) {
            (ArgView::Register(r1), ArgView::Register(r2)) => Some(rr(0x89, r1, r2)),
            (ArgView::Register(r), ArgView::Immediate(imm)) => Some(seq![rex(true, false, false, extended(r)), (0xB8 + reg_code(r)) as u8] + le64(imm as u64)),
            (ArgView::Register(r), ArgView::MemoryAddressDirect(m)) => Some(seq![rex(true, false, false, extended(r)), 0x8Bu8, modrm(0, reg_code(r), 5)] + le32(m as u32)),
            (ArgView::MemoryAddressDirect(m), ArgView::Register(r)) => Some(seq![rex(true, extended(r), false, false), 0x89u8, modrm(0, reg_code(r), 5)] + le32(m as u32)),
            (ArgView::MemoryAddressRegister(mr), ArgView::Register(r)) => match reg_size(mr) {
                RegisterSize::QuadWord => Some(seq![rex(true, extended(r), false, extended(mr)), 0x89u8, modrm(0, reg_code(r), reg_code(mr))]
                    + (if (mr matches Register::General(RegisterType::RBP, _)) || (mr matches Register::Extended(13, _)) { seq![0u8] } else { seq![] })),
                RegisterSize::Byte => Some(seq![rex(false, extended(r), false, extended(mr)), 0x88u8, modrm(0, reg_code(r), reg_code(mr))]),
                _ => None,
            },
            (ArgView::MemoryAddressRegister(mr), ArgView::Immediate(imm)) => match reg_size(mr) {
                RegisterSize::QuadWord => Some(seq![rex(true, false, false, extended(mr)), 0xC7u8, modrm(0, 0, reg_code(mr))] + le32(imm as u32)),
                RegisterSize::Byte => Some(seq![rex(false, false, false, extended(mr)), 0xC6u8, modrm(0, 0, reg_code(mr)), imm as u8]),
                _ => None,
            },
            _ => None,
        },
        AsmView::Add(d, s) => match (d, s) {
            (ArgView::Register(r1), ArgView::Register(r2)) => Some(rr(0x01, r1, r2)),
            (ArgView::Register(r), ArgView::Immediate(imm)) => Some(ri(0, r, imm)),
            (ArgView::MemoryAddressDirect(m), ArgView::Register(r)) => Some(seq![rex(true, extended(r), false, false), 0x01u8, modrm(0, reg_code(r), 5)] + le32(m as u32)),
            (ArgView::Register(r), ArgView::MemoryAddressDirect(m)) => Some(seq![rex(true, false, false, extended(r)), 0x03u8, modrm(0, reg_code(r), 5)] + le32(m as u32)),
            (ArgView::MemoryAddressDirect(m), ArgView::Immediate(imm)) => Some(seq![rex(true, false, false, false), 0x81u8, modrm(0, 0, 5)] + le32(imm as u32)),
            _ => None,
        },
        AsmView::Mul(d, s) => match (d, s) {
            (ArgView::Register(r1), ArgView::Register(r2)) => Some(seq![rex(true, extended(r1), false, extended(r2)), 0x0Fu8, 0xAFu8, modrm(3, reg_code(r1), reg_code(r2))]),
            (ArgView::Register(r), ArgView::Immediate(imm)) => Some(seq![rex(true, false, false, extended(r)), 0x69u8, modrm(3, reg_code(r), reg_code(r))] + le32(imm as u32)),
            _ => None,
        },
        AsmView::Sub(d, s) => match (d, s) {
            (ArgView::Register(r1), ArgView::Register(r2)) => Some(rr(0x29, r1, r2)),
            (ArgView::Register(r), ArgView::Immediate(imm)) => Some(ri(5, r, imm)),
            _ => None,
        },
        AsmView::Div(s) => match s {
            ArgView::Register(r) => Some(seq![rex(true, false, false, extended(r)), 0xF7u8, modrm(3, 6, reg_code(r))]),
            _ => None,
        },
        AsmView::Xor(d, s) => match (d, s) {
            (ArgView::Register(r1), ArgView::Register(r2)) => Some(rr(0x31, r1, r2)),
            _ => None,
        },
        AsmView::And(d, s) => match (d, s) {
            (ArgView::Register(r1), ArgView::Register(r2)) => Some(rr(0x21, r1, r2)),
            (ArgView::Register(r), ArgView::Immediate(imm)) => Some(ri(4, r, imm)),
            _ => None,
        },
        AsmView::Or(d, s) => match (d, s) {
            (ArgView::Register(r1), ArgView::Register(r2)) => Some(rr(0x09, r1, r2)),
            (ArgView::Register(r), ArgView::Immediate(imm)) => Some(ri(1, r, imm)),
            _ => None,
        },
        AsmView::Not(s) => match s {
            ArgView::Register(r) => Some(seq![rex(true, false, false, extended(r)), 0xF7u8, modrm(3, 2, reg_code(r))]),
            _ => None,
        },
        AsmView::Cmp(d, s) => match (d, s) {
            (ArgView::Register(r1), ArgView::Register(r2)) => Some(rr(0x39, r1, r2)),
            (ArgView::Register(r), ArgView::Immediate(imm)) => Some(ri(7, r, imm)),
            _ => None,
        },
        AsmView::Push(a) => match a {
            ArgView::Register(r) => Some((if extended(r) { seq![rex(true, false, false, true)] } else { seq![] }) + seq![(0x50 + reg_code(r)) as u8]),
            ArgView::Immediate(imm) => if -128 <= imm <= 127 { Some(seq![0x6Au8, imm as u8]) } else { Some(seq![0x68u8] + le32(imm as u32)) },
            _ => None,
        },
        AsmView::Pop(a) => match a {
            ArgView::Register(r) => Some((if extended(r) { seq![rex(true, false, false, true)] } else { seq![] }) + seq![(0x58 + reg_code(r)) as u8]),
            _ => None,
        },
        AsmView::Ret => Some(seq![0xC3u8]),
        AsmView::Nop => Some(seq![0x90u8]),
        _ => None,
    }
}

/// The number the processor gives a register: 0 to 7 for `rax`, `rcx`, `rdx`, `rbx`,
/// `rsp`, `rbp`, `rsi`, `rdi`, and 8 to 15 for `r8` to `r15`.
pub open spec fn reg_number(r: Register) -> int {
    match r {
        Register::General(RegisterType::RAX, _) => 0,
        Register::General(RegisterType::RCX, _) => 1,
        Register::General(RegisterType::RDX, _) => 2,
        Register::General(RegisterType::RBX, _) => 3,
        Register::General(RegisterType::RSP, _) => 4,
        Register::General(RegisterType::RBP, _) => 5,
        Register::General(RegisterType::RSI, _) => 6,
        Register::General(RegisterType::RDI, _) => 7,
        Register::Extended(n, _) => n as int,
    }
}

/// The operations the decoder below tells apart.
pub enum DecodedOp {
    Mov,
    Add,
    Sub,
    Xor,
    And,
    Or,
    Cmp,
    Mul,
    Not,
    Div,
}

/// A decoded 64-bit instruction: an operation on two registers (destination, then
/// source), on a register and a 32-bit immediate (its four bytes), or on one register.
pub enum Decoded {
    Binary(DecodedOp, int, int),
    WithImmediate(DecodedOp, int, Seq<u8>),
    Unary(DecodedOp, int),
    MovImmediate(int, Seq<u8>),
    Push(int),
    Pop(int),
    Ret,
    Nop,
}

/// The jumps and calls to a label, by the opcode bytes before their 32-bit address:
/// `E9` JMP, `E8` CALL, and after `0F`: `84` JE, `85` JNE, `8F` JG, `8D` JGE, `8C` JL,
/// `8E` JLE.
pub enum JumpKind {
    Jmp,
    Call,
    Je,
    Jne,
    Jg,
    Jge,
    Jl,
    Jle,
}

/// The jump or call that opcode bytes begin, as the x86-64 manual gives them.
pub open spec fn decode_jump(op: Seq<u8>) -> Option<JumpKind> {
    if op.len() == 1 && op[0] == 0xE9 { Some(JumpKind::Jmp) }
    else if op.len() == 1 && op[0] == 0xE8 { Some(JumpKind::Call) }
    else if op.len() != 2 || op[0] != 0x0F { None }
    else if op[1] == 0x84 { Some(JumpKind::Je) }
    else if op[1] == 0x85 { Some(JumpKind::Jne) }
    else if op[1] == 0x8F { Some(JumpKind::Jg) }
    else if op[1] == 0x8D { Some(JumpKind::Jge) }
    else if op[1] == 0x8C { Some(JumpKind::Jl) }
    else if op[1] == 0x8E { Some(JumpKind::Jle) }
    else { None }
}

/// A one-byte instruction: `50`+r PUSH, `58`+r POP (the register number raised by
/// `base`), `C3` RET, `90` NOP.
pub open spec fn decode_one(c: u8, base: int) -> Option<Decoded> {
    if 0x50 <= c < 0x58 { Some(Decoded::Push(c - 0x50 + base)) }
    else if 0x58 <= c < 0x60 { Some(Decoded::Pop(c - 0x58 + base)) }
    else if c == 0xC3 && base == 0 { Some(Decoded::Ret) }
    else if c == 0x90 && base == 0 { Some(Decoded::Nop) }
    else { None }
}

/// The operation of a "register or memory, register" opcode of the x86-64 manual:
/// `89` MOV, `01` ADD, `29` SUB, `31` XOR, `21` AND, `09` OR, `39` CMP.
pub open spec fn mr_opcode(op: u8) -> Option<DecodedOp> {
    if op == 0x89 { Some(DecodedOp::Mov) }
    else if op == 0x01 { Some(DecodedOp::Add) }
    else if op == 0x29 { Some(DecodedOp::Sub) }
    else if op == 0x31 { Some(DecodedOp::Xor) }
    else if op == 0x21 { Some(DecodedOp::And) }
    else if op == 0x09 { Some(DecodedOp::Or) }
    else if op == 0x39 { Some(DecodedOp::Cmp) }
    else { None }
}

/// The operation of opcode `81` with an immediate, by the register field of its ModR/M
/// byte: /0 ADD, /1 OR, /4 AND, /5 SUB, /7 CMP.
pub open spec fn group1_op(ext: int) -> Option<DecodedOp> {
    if ext == 0 { Some(DecodedOp::Add) }
    else if ext == 1 { Some(DecodedOp::Or) }
    else if ext == 4 { Some(DecodedOp::And) }
    else if ext == 5 { Some(DecodedOp::Sub) }
    else if ext == 7 { Some(DecodedOp::Cmp) }
    else { None }
}

/// Decodes the register forms of 64-bit instructions, as the x86-64 manual lays them
/// out: a REX prefix with W set (its R bit extends the ModR/M register field and its B
/// bit the r/m field), the opcode, and a ModR/M byte in register mode.
pub open spec fn decode(b: Seq<u8>) -> Option<Decoded> {
    if b.len() == 1 {
        decode_one(b[0], 0)
    } else if b.len() == 2 && b[0] == 0x49 && 0x50 <= b[1] < 0x60 {
        decode_one(b[1], 8)
    } else if b.len() < 3 || b[0] < 72 || b[0] >= 80 {
        None
    } else {
        let x = b[0] as int - 64;
        let rr = (x / 4) % 2;
        let rb = x % 2;
        if b.len() == 10 && 0xB8 <= b[1] < 0xC0 && rr == 0 {
            Some(Decoded::MovImmediate(b[1] - 0xB8 + 8 * rb, b.subrange(2, 10)))
        } else if b[1] == 0x0F {
            if b.len() == 4 && b[2] == 0xAF && b[3] >= 192 {
                Some(Decoded::Binary(DecodedOp::Mul, (b[3] as int / 8) % 8 + 8 * rr, b[3] as int % 8 + 8 * rb))
            } else {
                None
            }
        } else if b[2] < 192 {
            None
        } else {
            let field = (b[2] as int / 8) % 8;
            let rm = b[2] as int % 8 + 8 * rb;
            if b.len() == 3 && mr_opcode(b[1]) is Some {
                Some(Decoded::Binary(mr_opcode(b[1])->0, rm, field + 8 * rr))
            } else if b.len() == 3 && b[1] == 0xF7 && rr == 0 && field == 2 {
                Some(Decoded::Unary(DecodedOp::Not, rm))
            } else if b.len() == 3 && b[1] == 0xF7 && rr == 0 && field == 6 {
                Some(Decoded::Unary(DecodedOp::Div, rm))
            } else if b.len() == 7 && b[1] == 0x81 && rr == 0 && group1_op(field) is Some {
                Some(Decoded::WithImmediate(group1_op(field)->0, rm, b.subrange(3, 7)))
            } else {
                None
            }
        }
    }
}

/// What the encoding of an instruction decodes to, if it has an encoding.
pub open spec fn decode_of(i: AsmView) -> Option<Decoded> {
    match encode(i) {
        Some(b) => decode(b),
        None => None,
    }
}

proof fn lemma_reg_bits(r: Register)
    requires
        encodable(r),
    ensures
        0 <= reg_code(r) < 8,
        reg_number(r) == reg_code(r) + if extended(r) { 8int } else { 0 },
{
}

proof fn lemma_modrm_fields(md: int, reg: int, rm: int)
    requires
        md == 3,
        0 <= reg < 8,
        0 <= rm < 8,
    ensures
        modrm(md, reg, rm) >= 192,
        (modrm(md, reg, rm) / 8) % 8 == reg,
        modrm(md, reg, rm) % 8 == rm,
{
    let m = 192 + 8 * reg + rm;
    assert(modrm(md, reg, rm) == m);
    assert(m / 8 == 24 + reg) by (nonlinear_arith)
        requires m == 192 + 8 * reg + rm, 0 <= rm < 8, 0 <= reg < 8;
    assert(m % 8 == rm) by (nonlinear_arith)
        requires m == 192 + 8 * reg + rm, 0 <= rm < 8, 0 <= reg < 8;
    assert((24 + reg) % 8 == reg);
}

proof fn lemma_rex_bits(r: bool, b: bool)
    ensures
        72 <= rex(true, r, false, b) < 80,
        ((rex(true, r, false, b) - 64) / 4) % 2 == if r { 1int } else { 0 },
        (rex(true, r, false, b) - 64) % 2 == if b { 1int } else { 0 },
{
}

proof fn lemma_rr_decodes(op: u8, r1: Register, r2: Register)
    requires
        encodable(r1),
        encodable(r2),
        mr_opcode(op) is Some,
    ensures
        decode(rr(op, r1, r2)) == Some(Decoded::Binary(mr_opcode(op)->0, reg_number(r1), reg_number(r2))),
{
    lemma_reg_bits(r1);
    lemma_reg_bits(r2);
    lemma_rex_bits(extended(r2), extended(r1));
    lemma_modrm_fields(3, reg_code(r2), reg_code(r1));
}

proof fn lemma_mul_decodes(r1: Register, r2: Register)
    requires
        encodable(r1),
        encodable(r2),
    ensures
        decode_of(AsmView::Mul(ArgView::Register(r1), ArgView::Register(r2))) == Some(Decoded::Binary(DecodedOp::Mul, reg_number(r1), reg_number(r2))),
{
    lemma_reg_bits(r1);
    lemma_reg_bits(r2);
    lemma_rex_bits(extended(r1), extended(r2));
    lemma_modrm_fields(3, reg_code(r1), reg_code(r2));
}

proof fn lemma_unary_decodes(ext: int, r: Register)
    requires
        encodable(r),
        ext == 2 || ext == 6,
    ensures
        decode(seq![rex(true, false, false, extended(r)), 0xF7u8, modrm(3, ext, reg_code(r))])
            == Some(Decoded::Unary(if ext == 2 { DecodedOp::Not } else { DecodedOp::Div }, reg_number(r))),
{
    lemma_reg_bits(r);
    lemma_rex_bits(false, extended(r));
    lemma_modrm_fields(3, ext, reg_code(r));
}

proof fn lemma_ri_decodes(ext: int, r: Register, imm: i64)
    requires
        encodable(r),
        group1_op(ext) is Some,
        0 <= ext < 8,
    ensures
        decode(ri(ext, r, imm)) == Some(Decoded::WithImmediate(group1_op(ext)->0, reg_number(r), le32(imm as u32))),
{
    lemma_reg_bits(r);
    lemma_rex_bits(false, extended(r));
    lemma_modrm_fields(3, ext, reg_code(r));
    assert(ri(ext, r, imm).subrange(3, 7) =~= le32(imm as u32));
}

/// Each register form decodes back to the instruction it encodes: the operation it
/// names and the numbers of its registers, destination first, and for an immediate its
/// four bytes. So no two of these instructions share an encoding, and each opcode is
/// the one the x86-64 manual gives its operation.
pub proof fn lemma_register_forms_decode(r1: Register, r2: Register, imm: i64)
    requires
        encodable(r1),
        encodable(r2),
    ensures
        ({
            let (a, b) = (ArgView::Register(r1), ArgView::Register(r2));
            let (n1, n2) = (reg_number(r1), reg_number(r2));
            &&& decode_of(AsmView::Mov(a, b)) == Some(Decoded::Binary(DecodedOp::Mov, n1, n2))
            &&& decode_of(AsmView::Add(a, b)) == Some(Decoded::Binary(DecodedOp::Add, n1, n2))
            &&& decode_of(AsmView::Sub(a, b)) == Some(Decoded::Binary(DecodedOp::Sub, n1, n2))
            &&& decode_of(AsmView::Xor(a, b)) == Some(Decoded::Binary(DecodedOp::Xor, n1, n2))
            &&& decode_of(AsmView::And(a, b)) == Some(Decoded::Binary(DecodedOp::And, n1, n2))
            &&& decode_of(AsmView::Or(a, b)) == Some(Decoded::Binary(DecodedOp::Or, n1, n2))
            &&& decode_of(AsmView::Cmp(a, b)) == Some(Decoded::Binary(DecodedOp::Cmp, n1, n2))
            &&& decode_of(AsmView::Mul(a, b)) == Some(Decoded::Binary(DecodedOp::Mul, n1, n2))
            &&& decode_of(AsmView::Not(a)) == Some(Decoded::Unary(DecodedOp::Not, n1))
            &&& decode_of(AsmView::Div(a)) == Some(Decoded::Unary(DecodedOp::Div, n1))
            &&& decode_of(AsmView::Push(a)) == Some(Decoded::Push(n1))
            &&& decode_of(AsmView::Pop(a)) == Some(Decoded::Pop(n1))
            &&& decode_of(AsmView::Mov(a, ArgView::Immediate(imm))) == Some(Decoded::MovImmediate(n1, le64(imm as u64)))
            &&& decode_of(AsmView::Ret) == Some(Decoded::Ret)
            &&& decode_of(AsmView::Nop) == Some(Decoded::Nop)
        }),
        ({
            let a = ArgView::Register(r1);
            let n1 = reg_number(r1);
            let i = ArgView::Immediate(imm);
            let bytes = le32(imm as u32);
            &&& decode_of(AsmView::Add(a, i)) == Some(Decoded::WithImmediate(DecodedOp::Add, n1, bytes))
            &&& decode_of(AsmView::Sub(a, i)) == Some(Decoded::WithImmediate(DecodedOp::Sub, n1, bytes))
            &&& decode_of(AsmView::And(a, i)) == Some(Decoded::WithImmediate(DecodedOp::And, n1, bytes))
            &&& decode_of(AsmView::Or(a, i)) == Some(Decoded::WithImmediate(DecodedOp::Or, n1, bytes))
            &&& decode_of(AsmView::Cmp(a, i)) == Some(Decoded::WithImmediate(DecodedOp::Cmp, n1, bytes))
        }),
{
    let (a, b) = (ArgView::Register(r1), ArgView::Register(r2));
    lemma_rr_decodes(0x89, r1, r2);
    lemma_rr_decodes(0x01, r1, r2);
    lemma_rr_decodes(0x29, r1, r2);
    lemma_rr_decodes(0x31, r1, r2);
    lemma_rr_decodes(0x21, r1, r2);
    lemma_rr_decodes(0x09, r1, r2);
    lemma_rr_decodes(0x39, r1, r2);
    lemma_mul_decodes(r1, r2);
    lemma_unary_decodes(2, r1);
    lemma_unary_decodes(6, r1);
    lemma_ri_decodes(0, r1, imm);
    lemma_ri_decodes(5, r1, imm);
    lemma_ri_decodes(4, r1, imm);
    lemma_ri_decodes(1, r1, imm);
    lemma_ri_decodes(7, r1, imm);
    lemma_push_pop_decodes(r1);
    lemma_mov_immediate_decodes(r1, imm);
}

proof fn lemma_push_pop_decodes(r: Register)
    requires
        encodable(r),
    ensures
        decode_of(AsmView::Push(ArgView::Register(r))) == Some(Decoded::Push(reg_number(r))),
        decode_of(AsmView::Pop(ArgView::Register(r))) == Some(Decoded::Pop(reg_number(r))),
{
    lemma_reg_bits(r);
    let p = (if extended(r) { seq![rex(true, false, false, true)] } else { seq![] }) + seq![(0x50 + reg_code(r)) as u8];
    let o = (if extended(r) { seq![rex(true, false, false, true)] } else { seq![] }) + seq![(0x58 + reg_code(r)) as u8];
    if extended(r) {
        assert(p =~= seq![0x49u8, (0x50 + reg_code(r)) as u8]);
        assert(o =~= seq![0x49u8, (0x58 + reg_code(r)) as u8]);
    } else {
        assert(p =~= seq![(0x50 + reg_code(r)) as u8]);
        assert(o =~= seq![(0x58 + reg_code(r)) as u8]);
    }
}

proof fn lemma_mov_immediate_decodes(r: Register, imm: i64)
    requires
        encodable(r),
    ensures
        decode_of(AsmView::Mov(ArgView::Register(r), ArgView::Immediate(imm))) == Some(Decoded::MovImmediate(reg_number(r), le64(imm as u64))),
{
    lemma_reg_bits(r);
    lemma_rex_bits(false, extended(r));
    let b = seq![rex(true, false, false, extended(r)), (0xB8 + reg_code(r)) as u8] + le64(imm as u64);
    assert(b.subrange(2, 10) =~= le64(imm as u64));
}

/// Each jump or call to a label begins with the opcode the x86-64 manual gives it, and
/// its address is left for the label.
pub proof fn lemma_jump_opcodes(l: Seq<char>)
    ensures
        jump_opcode(AsmView::Jmp(l)) matches Some((op, t)) && t == l && decode_jump(op) == Some(JumpKind::Jmp),
        jump_opcode(AsmView::Call(l)) matches Some((op, t)) && t == l && decode_jump(op) == Some(JumpKind::Call),
        jump_opcode(AsmView::Je(l)) matches Some((op, t)) && t == l && decode_jump(op) == Some(JumpKind::Je),
        jump_opcode(AsmView::Jne(l)) matches Some((op, t)) && t == l && decode_jump(op) == Some(JumpKind::Jne),
        jump_opcode(AsmView::Jg(l)) matches Some((op, t)) && t == l && decode_jump(op) == Some(JumpKind::Jg),
        jump_opcode(AsmView::Jge(l)) matches Some((op, t)) && t == l && decode_jump(op) == Some(JumpKind::Jge),
        jump_opcode(AsmView::Jl(l)) matches Some((op, t)) && t == l && decode_jump(op) == Some(JumpKind::Jl),
        jump_opcode(AsmView::Jle(l)) matches Some((op, t)) && t == l && decode_jump(op) == Some(JumpKind::Jle),
{
}

/// The state of assembling: the code so far, the address of each label, the jumps and
/// calls whose 4-byte relative address is still to be filled in, the calls of imported
/// functions, and where the program starts.
pub struct AsmState {
    pub code: Seq<u8>,
    pub labels: Map<Seq<char>, nat>,
    pub jumps: Seq<(Seq<char>, nat)>,
    pub imports: Seq<(Seq<char>, nat)>,
    pub start: nat,
}

/// The opcode bytes of a jump to a label, where the instruction is one.
pub open spec fn jump_opcode(i: AsmView) -> Option<(Seq<u8>, Seq<char>)> {
    match i {
        AsmView::Jmp(l) => Some((seq![0xE9u8], l)),
        AsmView::Je(l) => Some((seq![0x0Fu8, 0x84u8], l)),
        AsmView::Jne(l) => Some((seq![0x0Fu8, 0x85u8], l)),
        AsmView::Jg(l) => Some((seq![0x0Fu8, 0x8Fu8], l)),
        AsmView::Jge(l) => Some((seq![0x0Fu8, 0x8Du8], l)),
        AsmView::Jl(l) => Some((seq![0x0Fu8, 0x8Cu8], l)),
        AsmView::Jle(l) => Some((seq![0x0Fu8, 0x8Eu8], l)),
        AsmView::Call(l) => Some((seq![0xE8u8], l)),
        _ => None,
    }
}

/// Four zero bytes, the place of an address filled in later.
pub open spec fn zeros4() -> Seq<u8> {
    seq![0u8, 0u8, 0u8, 0u8]
}

/// One instruction assembled onto the state.
pub open spec fn asm_step(st: AsmState, i: AsmView) -> Option<AsmState> {
    if !instr_encodable(i) {
        None
    } else {
        match i {
            AsmView::ProgramStart => Some(AsmState { start: st.code.len(), ..st }),
            AsmView::Label(l) => Some(AsmState { labels: st.labels.insert(l, st.code.len()), ..st }),
            AsmView::ExternCall(f) => Some(AsmState {
                code: st.code + seq![0xFFu8, 0x15u8] + zeros4(),
                imports: st.imports.push((f, st.code.len() + 2)),
                ..st
            }),
            _ => match jump_opcode(i) {
                Some((op, l)) => Some(AsmState {
                    code: st.code + op + zeros4(),
                    jumps: st.jumps.push((l, st.code.len() + op.len())),
                    ..st
                }),
                None => match encode(i) {
                    Some(b) => Some(AsmState { code: st.code + b, ..st }),
                    None => None,
                },
            },
        }
    }
}

/// Instructions assembled in order from an empty state.
pub open spec fn asm_all(s: Seq<AsmView>) -> Option<AsmState>
    decreases s.len(),
{
    if s.len() == 0 {
        Some(AsmState { code: seq![], labels: Map::empty(), jumps: seq![], imports: seq![], start: 0 })
    } else {
        match asm_all(s.drop_last()) {
            None => None,
            Some(st) => asm_step(st, s.last()),
        }
    }
}

/// The code with each jump's address filled in with the distance from the end of the
/// address to its label; none where a label is not defined.
pub open spec fn resolve(code: Seq<u8>, labels: Map<Seq<char>, nat>, jumps: Seq<(Seq<char>, nat)>) -> Option<Seq<u8>>
    decreases jumps.len(),
{
    if jumps.len() == 0 {
        Some(code)
    } else {
        match resolve(code, labels, jumps.drop_last()) {
            None => None,
            Some(c) => {
                let (l, pos) = jumps.last();
                if labels.contains_key(l) {
                    Some(written_at(c, pos as int, le32((labels[l] - (pos + 4)) as u32)))
                } else {
                    None
                }
            },
        }
    }
}

/// The machine code of a program, the calls of imported functions still to be linked
/// (name and position of their address), and the offset the program starts at.
pub open spec fn assembled(s: Seq<AsmView>) -> Option<(Seq<u8>, Seq<(Seq<char>, nat)>, nat)> {
    match asm_all(s) {
        None => None,
        Some(st) => match resolve(st.code, st.labels, st.jumps) {
            None => None,
            Some(c) => Some((c, st.imports, st.start)),
        },
    }
}

/// The names and positions of a list of pairs.
pub open spec fn pairs_view(v: Seq<(String, usize)>) -> Seq<(Seq<char>, nat)> {
    v.map_values(|p: (String, usize)| (p.0@, p.1 as nat))
}

fn rex_exec(w: bool, r: bool, x: bool, b: bool) -> (v: u8)
    ensures
        v == rex(w, r, x, b),
{
    64 + (if w { 8u8 } else { 0 }) + (if r { 4u8 } else { 0 }) + (if x { 2u8 } else { 0 }) + (if b { 1u8 } else { 0 })
}

fn modrm_exec(md: u8, reg: u8, rm: u8) -> (v: u8)
    requires
        md <= 3,
        reg < 8,
        rm < 8,
    ensures
        v == modrm(md as int, reg as int, rm as int),
{
    64 * md + 8 * reg + rm
}

fn get_rm(r: &Register) -> (c: u8)
    requires
        encodable(*r),
    ensures
        c == reg_code(*r),
        c < 8,
{
    match r {
        Register::General(t, _) => match t {
            RegisterType::RAX => 0,
            RegisterType::RCX => 1,
            RegisterType::RDX => 2,
            RegisterType::RBX => 3,
            RegisterType::RSP => 4,
            RegisterType::RBP => 5,
            RegisterType::RSI => 6,
            RegisterType::RDI => 7,
        },
        Register::Extended(n, _) => *n - 8,
    }
}

fn is_extended(r: &Register) -> (b: bool)
    ensures
        b == extended(*r),
{
    match r {
        Register::General(_, _) => false,
        Register::Extended(_, _) => true,
    }
}

fn put_bytes(code: &mut Vec<u8>, bytes: Vec<u8>)
    ensures
        final(code)@ == old(code)@ + bytes@,
{
    let mut k: usize = 0;
    while k < bytes.len()
        invariant
            k <= bytes@.len(),
            code@ == old(code)@ + bytes@.subrange(0, k as int),
        decreases bytes@.len() - k,
    {
        code.push(bytes[k]);
        assert(old(code)@ + bytes@.subrange(0, k + 1) =~= old(code)@ + bytes@.subrange(0, k as int) + seq![bytes@[k as int]]);
        k = k + 1;
    }
    assert(bytes@.subrange(0, bytes@.len() as int) =~= bytes@);
}

fn le32_exec(v: u32) -> (b: Vec<u8>)
    ensures
        b@ == le32(v),
{
    let b = vec![(v % 256) as u8, ((v / 256) % 256) as u8, ((v / 65536) % 256) as u8, ((v / 16777216) % 256) as u8];
    assert(b@ =~= le32(v));
    b
}

fn le64_exec(v: u64) -> (b: Vec<u8>)
    ensures
        b@ == le64(v),
{
    let mut b = le32_exec((v % 4294967296) as u32);
    let hi = le32_exec((v / 4294967296) as u32);
    put_bytes(&mut b, hi);
    b
}

fn rr_exec(op: u8, dst: &Register, src: &Register, code: &mut Vec<u8>)
    requires
        encodable(*dst),
        encodable(*src),
    ensures
        final(code)@ == old(code)@ + rr(op, *dst, *src),
{
    let bytes = vec![rex_exec(true, is_extended(src), false, is_extended(dst)), op, modrm_exec(3, get_rm(src), get_rm(dst))];
    assert(bytes@ =~= rr(op, *dst, *src));
    put_bytes(code, bytes);
}

fn ri_exec(ext: u8, r: &Register, imm: i64, code: &mut Vec<u8>)
    requires
        encodable(*r),
        ext < 8,
    ensures
        final(code)@ == old(code)@ + ri(ext as int, *r, imm),
{
    let bytes = vec![rex_exec(true, false, false, is_extended(r)), 0x81u8, modrm_exec(3, ext, get_rm(r))];
    put_bytes(code, bytes);
    put_bytes(code, le32_exec(imm as u32));
    assert(code@ =~= old(code)@ + ri(ext as int, *r, imm));
}

fn mem_bytes(code: &mut Vec<u8>, b0: u8, b1: u8, b2: u8, tail: Vec<u8>)
    ensures
        final(code)@ == old(code)@ + (seq![b0, b1, b2] + tail@),
{
    put_bytes(code, vec![b0, b1, b2]);
    put_bytes(code, tail);
    assert(code@ =~= old(code)@ + (seq![b0, b1, b2] + tail@));
}

fn encode_exec(i: &AssemblyInstruction, code: &mut Vec<u8>) -> (ok: bool)
    requires
        instr_encodable(asm_view(*i)),
    ensures
        match encode(asm_view(*i)) {
            None => !ok,
            Some(b) => ok && final(code)@ == old(code)@ + b,
        },
{
    match i {
        AssemblyInstruction::Mov(d, src) => match (d, src) {
            (Argument::Register(r1), Argument::Register(r2)) => {
                rr_exec(0x89, r1, r2, code);
                true
            },
            (Argument::Register(r), Argument::Immediate(imm)) => {
                let c = get_rm(r);
                put_bytes(code, vec![rex_exec(true, false, false, is_extended(r)), 0xB8 + c]);
                put_bytes(code, le64_exec(*imm as u64));
                assert(code@ =~= old(code)@ + (seq![rex(true, false, false, extended(*r)), (0xB8 + reg_code(*r)) as u8] + le64(*imm as u64)));
                true
            },
            (Argument::Register(r), Argument::MemoryAddressDirect(m)) => {
                mem_bytes(code, rex_exec(true, false, false, is_extended(r)), 0x8B, modrm_exec(0, get_rm(r), 5), le32_exec(*m as u32));
                true
            },
            (Argument::MemoryAddressDirect(m), Argument::Register(r)) => {
                mem_bytes(code, rex_exec(true, is_extended(r), false, false), 0x89, modrm_exec(0, get_rm(r), 5), le32_exec(*m as u32));
                true
            },
            (Argument::MemoryAddressRegister(mr), Argument::Register(r)) => {
                let size = match mr {
                    Register::General(_, sz) => *sz,
                    Register::Extended(_, sz) => *sz,
                };
                match size {
                    RegisterSize::QuadWord => {
                        let pad = match mr {
                            Register::General(RegisterType::RBP, _) => true,
                            Register::Extended(13, _) => true,
                            _ => false,
                        };
                        let tail = if pad { vec![0u8] } else { Vec::new() };
                        assert(tail@ =~= (if (*mr matches Register::General(RegisterType::RBP, _)) || (*mr matches Register::Extended(13, _)) { seq![0u8] } else { seq![] }));
                        mem_bytes(code, rex_exec(true, is_extended(r), false, is_extended(mr)), 0x89, modrm_exec(0, get_rm(r), get_rm(mr)), tail);
                        true
                    },
                    RegisterSize::Byte => {
                        mem_bytes(code, rex_exec(false, is_extended(r), false, is_extended(mr)), 0x88, modrm_exec(0, get_rm(r), get_rm(mr)), Vec::new());
                        assert(code@ =~= old(code)@ + seq![rex(false, extended(*r), false, extended(*mr)), 0x88u8, modrm(0, reg_code(*r), reg_code(*mr))]);
                        true
                    },
                    _ => false,
                }
            },
            (Argument::MemoryAddressRegister(mr), Argument::Immediate(imm)) => {
                let size = match mr {
                    Register::General(_, sz) => *sz,
                    Register::Extended(_, sz) => *sz,
                };
                match size {
                    RegisterSize::QuadWord => {
                        mem_bytes(code, rex_exec(true, false, false, is_extended(mr)), 0xC7, modrm_exec(0, 0, get_rm(mr)), le32_exec(*imm as u32));
                        true
                    },
                    RegisterSize::Byte => {
                        put_bytes(code, vec![rex_exec(false, false, false, is_extended(mr)), 0xC6, modrm_exec(0, 0, get_rm(mr)), *imm as u8]);
                        true
                    },
                    _ => false,
                }
            },
            _ => false,
        },
        AssemblyInstruction::Add(d, src) => match (d, src) {
            (Argument::Register(r1), Argument::Register(r2)) => {
                rr_exec(0x01, r1, r2, code);
                true
            },
            (Argument::Register(r), Argument::Immediate(imm)) => {
                ri_exec(0, r, *imm, code);
                true
            },
            (Argument::MemoryAddressDirect(m), Argument::Register(r)) => {
                mem_bytes(code, rex_exec(true, is_extended(r), false, false), 0x01, modrm_exec(0, get_rm(r), 5), le32_exec(*m as u32));
                true
            },
            (Argument::Register(r), Argument::MemoryAddressDirect(m)) => {
                mem_bytes(code, rex_exec(true, false, false, is_extended(r)), 0x03, modrm_exec(0, get_rm(r), 5), le32_exec(*m as u32));
                true
            },
            (Argument::MemoryAddressDirect(_), Argument::Immediate(imm)) => {
                mem_bytes(code, rex_exec(true, false, false, false), 0x81, modrm_exec(0, 0, 5), le32_exec(*imm as u32));
                true
            },
            _ => false,
        },
        AssemblyInstruction::Mul(d, src) => match (d, src) {
            (Argument::Register(r1), Argument::Register(r2)) => {
                put_bytes(code, vec![rex_exec(true, is_extended(r1), false, is_extended(r2)), 0x0F, 0xAF, modrm_exec(3, get_rm(r1), get_rm(r2))]);
                true
            },
            (Argument::Register(r), Argument::Immediate(imm)) => {
                mem_bytes(code, rex_exec(true, false, false, is_extended(r)), 0x69, modrm_exec(3, get_rm(r), get_rm(r)), le32_exec(*imm as u32));
                true
            },
            _ => false,
        },
        AssemblyInstruction::Sub(d, src) => match (d, src) {
            (Argument::Register(r1), Argument::Register(r2)) => {
                rr_exec(0x29, r1, r2, code);
                true
            },
            (Argument::Register(r), Argument::Immediate(imm)) => {
                ri_exec(5, r, *imm, code);
                true
            },
            _ => false,
        },
        AssemblyInstruction::Div(src) => match src {
            Argument::Register(r) => {
                put_bytes(code, vec![rex_exec(true, false, false, is_extended(r)), 0xF7, modrm_exec(3, 6, get_rm(r))]);
                true
            },
            _ => false,
        },
        AssemblyInstruction::Xor(d, src) => match (d, src) {
            (Argument::Register(r1), Argument::Register(r2)) => {
                rr_exec(0x31, r1, r2, code);
                true
            },
            _ => false,
        },
        AssemblyInstruction::And(d, src) => match (d, src) {
            (Argument::Register(r1), Argument::Register(r2)) => {
                rr_exec(0x21, r1, r2, code);
                true
            },
            (Argument::Register(r), Argument::Immediate(imm)) => {
                ri_exec(4, r, *imm, code);
                true
            },
            _ => false,
        },
        AssemblyInstruction::Or(d, src) => match (d, src) {
            (Argument::Register(r1), Argument::Register(r2)) => {
                rr_exec(0x09, r1, r2, code);
                true
            },
            (Argument::Register(r), Argument::Immediate(imm)) => {
                ri_exec(1, r, *imm, code);
                true
            },
            _ => false,
        },
        AssemblyInstruction::Not(a) => match a {
            Argument::Register(r) => {
                put_bytes(code, vec![rex_exec(true, false, false, is_extended(r)), 0xF7, modrm_exec(3, 2, get_rm(r))]);
                true
            },
            _ => false,
        },
        AssemblyInstruction::Cmp(d, src) => match (d, src) {
            (Argument::Register(r1), Argument::Register(r2)) => {
                rr_exec(0x39, r1, r2, code);
                true
            },
            (Argument::Register(r), Argument::Immediate(imm)) => {
                ri_exec(7, r, *imm, code);
                true
            },
            _ => false,
        },
        AssemblyInstruction::Push(a) => match a {
            Argument::Register(r) => {
                if is_extended(r) {
                    put_bytes(code, vec![rex_exec(true, false, false, true)]);
                }
                put_bytes(code, vec![0x50 + get_rm(r)]);
                assert(code@ =~= old(code)@ + ((if extended(*r) { seq![rex(true, false, false, true)] } else { seq![] }) + seq![(0x50 + reg_code(*r)) as u8]));
                true
            },
            Argument::Immediate(imm) => {
                if -128 <= *imm && *imm <= 127 {
                    put_bytes(code, vec![0x6A, *imm as u8]);
                } else {
                    put_bytes(code, vec![0x68]);
                    put_bytes(code, le32_exec(*imm as u32));
                    assert(code@ =~= old(code)@ + (seq![0x68u8] + le32(*imm as u32)));
                }
                true
            },
            _ => false,
        },
        AssemblyInstruction::Pop(a) => match a {
            Argument::Register(r) => {
                if is_extended(r) {
                    put_bytes(code, vec![rex_exec(true, false, false, true)]);
                }
                put_bytes(code, vec![0x58 + get_rm(r)]);
                assert(code@ =~= old(code)@ + ((if extended(*r) { seq![rex(true, false, false, true)] } else { seq![] }) + seq![(0x58 + reg_code(*r)) as u8]));
                true
            },
            _ => false,
        },
        AssemblyInstruction::Ret => {
            put_bytes(code, vec![0xC3]);
            true
        },
        AssemblyInstruction::Nop => {
            put_bytes(code, vec![0x90]);
            true
        },
        _ => false,
    }
}

fn instr_encodable_exec(i: &AssemblyInstruction) -> (b: bool)
    ensures
        b == instr_encodable(asm_view(*i)),
{
    match i {
        AssemblyInstruction::Mov(a, c) | AssemblyInstruction::Add(a, c) | AssemblyInstruction::Sub(a, c)
        | AssemblyInstruction::Mul(a, c) | AssemblyInstruction::Xor(a, c) | AssemblyInstruction::Cmp(a, c)
        | AssemblyInstruction::And(a, c) | AssemblyInstruction::Or(a, c) => arg_encodable_exec(a) && arg_encodable_exec(c),
        AssemblyInstruction::Div(a) | AssemblyInstruction::Push(a) | AssemblyInstruction::Pop(a)
        | AssemblyInstruction::Not(a) => arg_encodable_exec(a),
        _ => true,
    }
}

fn arg_encodable_exec(a: &Argument) -> (b: bool)
    ensures
        b == arg_encodable(crate::codegenerator::arg_view(*a)),
{
    match a {
        Argument::Register(Register::Extended(n, _)) => 8 <= *n && *n <= 15,
        Argument::MemoryAddressRegister(Register::Extended(n, _)) => 8 <= *n && *n <= 15,
        _ => true,
    }
}

fn label_lookup(labels: &Vec<(String, usize)>, l: &String, Ghost(m): Ghost<Map<Seq<char>, nat>>) -> (r: Option<usize>)
    requires
        assoc_is(labels@, m),
    ensures
        match r {
            Some(a) => m.contains_key(l@) && m[l@] == a,
            None => !m.contains_key(l@),
        },
{
    let mut i: usize = 0;
    while i < labels.len()
        invariant
            i <= labels@.len(),
            assoc_is(labels@, m),
            forall|j: int| 0 <= j < i ==> labels@[j].0@ != l@,
        decreases labels@.len() - i,
    {
        if labels[i].0 == *l {
            return Some(labels[i].1);
        }
        i = i + 1;
    }
    proof {
        if m.contains_key(l@) {
            let j = choose|j: int| 0 <= j < labels@.len() && labels@[j].0@ == l@;
        }
    }
    None
}

proof fn lemma_asm_all_none(s: Seq<AsmView>, k: int)
    requires
        0 <= k <= s.len(),
        asm_all(s.subrange(0, k)) is None,
    ensures
        asm_all(s) is None,
    decreases s.len() - k,
{
    if k < s.len() {
        assert(s.drop_last().subrange(0, k) =~= s.subrange(0, k));
        lemma_asm_all_none(s.drop_last(), k);
    } else {
        assert(s.subrange(0, k) =~= s);
    }
}

proof fn lemma_resolve_none(code: Seq<u8>, labels: Map<Seq<char>, nat>, j: Seq<(Seq<char>, nat)>, k: int)
    requires
        0 <= k <= j.len(),
        resolve(code, labels, j.subrange(0, k)) is None,
    ensures
        resolve(code, labels, j) is None,
    decreases j.len() - k,
{
    if k < j.len() {
        assert(j.drop_last().subrange(0, k) =~= j.subrange(0, k));
        lemma_resolve_none(code, labels, j.drop_last(), k);
    } else {
        assert(j.subrange(0, k) =~= j);
    }
}

fn undefined_label() -> (e: Error)
    ensures
        e matches Error::SimpleError { message } && message@ == "Undefined label"@,
{
    Error::SimpleError { message: String::from_str("Undefined label") }
}

/// Whether each jump's 4-byte address lies inside code of length `n`, after the address of
/// the jump before it.
pub open spec fn jumps_spaced(jumps: Seq<(Seq<char>, nat)>, n: nat) -> bool {
    &&& forall|k: int| 0 <= k < jumps.len() ==> (#[trigger] jumps[k]).1 + 4 <= n
    &&& forall|k1: int, k2: int| 0 <= k1 < k2 < jumps.len() ==> (#[trigger] jumps[k1]).1 + 4 <= (#[trigger] jumps[k2]).1
}

proof fn lemma_asm_all_spaced(s: Seq<AsmView>)
    ensures
        asm_all(s) matches Some(st) ==> jumps_spaced(st.jumps, st.code.len()),
    decreases s.len(),
{
    if s.len() > 0 {
        lemma_asm_all_spaced(s.drop_last());
        if let Some(st) = asm_all(s.drop_last()) {
            if let Some(st2) = asm_step(st, s.last()) {
                assert(st2.code.len() >= st.code.len());
                if st2.jumps != st.jumps {
                    assert(st2.jumps == st.jumps.push(st2.jumps.last()));
                    assert(st2.jumps.last().1 + 4 == st2.code.len());
                    assert forall|k1: int, k2: int| 0 <= k1 < k2 < st2.jumps.len() implies (#[trigger] st2.jumps[k1]).1 + 4 <= (#[trigger] st2.jumps[k2]).1 by {
                        if k2 < st.jumps.len() {
                            assert(st2.jumps[k1] == st.jumps[k1] && st2.jumps[k2] == st.jumps[k2]);
                        } else {
                            assert(st2.jumps[k1] == st.jumps[k1]);
                        }
                    }
                    assert forall|k: int| 0 <= k < st2.jumps.len() implies (#[trigger] st2.jumps[k]).1 + 4 <= st2.code.len() by {
                        if k < st.jumps.len() {
                            assert(st2.jumps[k] == st.jumps[k]);
                        }
                    }
                }
            }
        }
    }
}

proof fn lemma_resolve_writes(code: Seq<u8>, labels: Map<Seq<char>, nat>, jumps: Seq<(Seq<char>, nat)>)
    requires
        jumps_spaced(jumps, code.len()),
    ensures
        resolve(code, labels, jumps) matches Some(c) ==> c.len() == code.len() && forall|k: int| 0 <= k < jumps.len() ==> {
            let (l, p) = #[trigger] jumps[k];
            labels.contains_key(l) && c.subrange(p as int, (p + 4) as int) == le32((labels[l] - (p + 4)) as u32)
        },
    decreases jumps.len(),
{
    if jumps.len() > 0 {
        let prev = jumps.drop_last();
        assert(jumps_spaced(prev, code.len())) by {
            assert forall|k1: int, k2: int| 0 <= k1 < k2 < prev.len() implies (#[trigger] prev[k1]).1 + 4 <= (#[trigger] prev[k2]).1 by {
                assert(prev[k1] == jumps[k1] && prev[k2] == jumps[k2]);
            }
            assert forall|k: int| 0 <= k < prev.len() implies (#[trigger] prev[k]).1 + 4 <= code.len() by {
                assert(prev[k] == jumps[k]);
            }
        }
        lemma_resolve_writes(code, labels, prev);
        if let Some(c0) = resolve(code, labels, prev) {
            let (l, p) = jumps.last();
            assert(jumps[jumps.len() - 1] == jumps.last());
            if labels.contains_key(l) {
                let data = le32((labels[l] - (p + 4)) as u32);
                let c = written_at(c0, p as int, data);
                crate::exewriter::lemma_written_at(c0, p as int, data);
                assert forall|k: int| 0 <= k < jumps.len() implies {
                    let (l2, p2) = #[trigger] jumps[k];
                    labels.contains_key(l2) && c.subrange(p2 as int, (p2 + 4) as int) == le32((labels[l2] - (p2 + 4)) as u32)
                } by {
                    if k < prev.len() {
                        let (l2, p2) = jumps[k];
                        assert(prev[k] == jumps[k]);
                        assert(p2 + 4 <= p);
                        assert(c.subrange(p2 as int, (p2 + 4) as int) =~= c0.subrange(p2 as int, (p2 + 4) as int)) by {
                            assert forall|t: int| p2 <= t < p2 + 4 implies #[trigger] c[t] == c0[t] by {}
                        }
                    }
                }
            }
        }
    }
}

/// Every jump and call to a label is filled in: once a program is assembled, each
/// label it jumps to is defined, and the 4-byte address after each jump's opcode holds,
/// least significant byte first, the distance from the end of those 4 bytes to the
/// label's position in the code.
pub proof fn lemma_jumps_resolved(s: Seq<AsmView>)
    ensures
        asm_all(s) matches Some(st) ==> (assembled(s) matches Some((c, _, _)) ==> c.len() == st.code.len()
            && forall|k: int| 0 <= k < st.jumps.len() ==> {
                let (l, p) = #[trigger] st.jumps[k];
                st.labels.contains_key(l) && c.subrange(p as int, (p + 4) as int) == le32((st.labels[l] - (p + 4)) as u32)
            }),
{
    lemma_asm_all_spaced(s);
    if let Some(st) = asm_all(s) {
        lemma_resolve_writes(st.code, st.labels, st.jumps);
    }
}

/// The machine code of a program, the calls of imported functions still to be linked
/// (their name and the position of their 4-byte address), and the offset the program
/// starts at; an error where an instruction's operands have no encoding or a jump's
/// label is not defined.
pub fn try_assemble_program(instructions: Vec<AssemblyInstruction>) -> (r: Result<(Vec<u8>, Vec<(String, usize)>, usize), Error>)
    ensures
        match assembled(asms_view(instructions@)) {
            None => r matches Err(e) && e is SimpleError,
            Some((c, imps, st)) => r matches Ok(x) && x.0@ == c && pairs_view(x.1@) == imps && x.2 == st,
        },
{
    let ghost sv = asms_view(instructions@);
    let mut code: Vec<u8> = Vec::new();
    let mut labels: Vec<(String, usize)> = Vec::new();
    let ghost mut lmap: Map<Seq<char>, nat> = Map::empty();
    let mut jumps: Vec<(String, usize)> = Vec::new();
    let mut imports: Vec<(String, usize)> = Vec::new();
    let mut start: usize = 0;
    let mut k: usize = 0;
    assert(pairs_view(jumps@) =~= Seq::<(Seq<char>, nat)>::empty());
    assert(pairs_view(imports@) =~= Seq::<(Seq<char>, nat)>::empty());
    while k < instructions.len()
        invariant
            k <= instructions@.len(),
            sv == asms_view(instructions@),
            assoc_is(labels@, lmap),
            forall|j: int| 0 <= j < jumps@.len() ==> (#[trigger] jumps@[j]).1 + 4 <= code@.len(),
            asm_all(sv.subrange(0, k as int)) == Some(AsmState { code: code@, labels: lmap, jumps: pairs_view(jumps@), imports: pairs_view(imports@), start: start as nat }),
        decreases instructions@.len() - k,
    {
        assert(sv.subrange(0, k + 1).drop_last() =~= sv.subrange(0, k as int));
        assert(sv.subrange(0, k + 1).last() == asm_view(instructions@[k as int]));
        let i = &instructions[k];
        if !instr_encodable_exec(i) {
            proof { lemma_asm_all_none(sv, k + 1); }
            return Err(Error::SimpleError { message: String::from_str("Register cannot be encoded") });
        }
        let ghost before_jumps = jumps@;
        let ghost before_imports = imports@;
        let ghost prev = AsmState { code: code@, labels: lmap, jumps: pairs_view(jumps@), imports: pairs_view(imports@), start: start as nat };
        match i {
            AssemblyInstruction::ProgramStart => {
                start = code.len();
            },
            AssemblyInstruction::Label(l) => {
                assoc_set(&mut labels, l, code.len(), Ghost(lmap));
                proof { lmap = lmap.insert(l@, code@.len()); }
            },
            AssemblyInstruction::ExternCall(f) => {
                put_bytes(&mut code, vec![0xFF, 0x15]);
                let pos = code.len();
                put_bytes(&mut code, vec![0, 0, 0, 0]);
                imports.push((f.clone(), pos));
                assert(pairs_view(imports@) =~= pairs_view(before_imports).push((f@, pos as nat)));
                assert(code@ =~= prev.code + seq![0xFFu8, 0x15u8] + zeros4());
            },
            AssemblyInstruction::Jmp(l) | AssemblyInstruction::Call(l) => {
                let op: u8 = match i {
                    AssemblyInstruction::Jmp(_) => 0xE9,
                    _ => 0xE8,
                };
                put_bytes(&mut code, vec![op]);
                let pos = code.len();
                put_bytes(&mut code, vec![0, 0, 0, 0]);
                jumps.push((l.clone(), pos));
                assert(pairs_view(jumps@) =~= pairs_view(before_jumps).push((l@, pos as nat)));
                assert(code@ =~= prev.code + seq![op] + zeros4());
                assert(jump_opcode(asm_view(*i)) == Some((seq![op], l@)));
            },
            AssemblyInstruction::Je(l) | AssemblyInstruction::Jne(l) | AssemblyInstruction::Jg(l)
            | AssemblyInstruction::Jge(l) | AssemblyInstruction::Jl(l) | AssemblyInstruction::Jle(l) => {
                let op: u8 = match i {
                    AssemblyInstruction::Je(_) => 0x84,
                    AssemblyInstruction::Jne(_) => 0x85,
                    AssemblyInstruction::Jg(_) => 0x8F,
                    AssemblyInstruction::Jge(_) => 0x8D,
                    AssemblyInstruction::Jl(_) => 0x8C,
                    _ => 0x8E,
                };
                put_bytes(&mut code, vec![0x0F, op]);
                let pos = code.len();
                put_bytes(&mut code, vec![0, 0, 0, 0]);
                jumps.push((l.clone(), pos));
                assert(pairs_view(jumps@) =~= pairs_view(before_jumps).push((l@, pos as nat)));
                assert(code@ =~= prev.code + seq![0x0Fu8, op] + zeros4());
                assert(jump_opcode(asm_view(*i)) == Some((seq![0x0Fu8, op], l@)));
            },
            _ => {
                if !encode_exec(i, &mut code) {
                    proof { lemma_asm_all_none(sv, k + 1); }
                    return Err(Error::SimpleError { message: String::from_str("Instruction not supported by the assembler") });
                }
            },
        }
        k = k + 1;
    }
    assert(sv.subrange(0, instructions@.len() as int) =~= sv);
    let ghost code0 = code@;
    let clen = code.len();
    let ghost jv = pairs_view(jumps@);
    let ghost st_end = AsmState { code: code0, labels: lmap, jumps: jv, imports: pairs_view(imports@), start: start as nat };
    assert(asm_all(sv) == Some(st_end));
    let mut t: usize = 0;
    while t < jumps.len()
        invariant
            t <= jumps@.len(),
            jv == pairs_view(jumps@),
            sv == asms_view(instructions@),
            asm_all(sv) == Some(st_end),
            st_end == (AsmState { code: code0, labels: lmap, jumps: jv, imports: pairs_view(imports@), start: start as nat }),
            assoc_is(labels@, lmap),
            code@.len() >= code0.len(),
            clen == code0.len(),
            forall|j: int| 0 <= j < jumps@.len() ==> (#[trigger] jumps@[j]).1 + 4 <= code0.len(),
            resolve(code0, lmap, jv.subrange(0, t as int)) == Some(code@),
        decreases jumps@.len() - t,
    {
        assert(jv.subrange(0, t + 1).drop_last() =~= jv.subrange(0, t as int));
        assert(jv.subrange(0, t + 1).last() == (jumps@[t as int].0@, jumps@[t as int].1 as nat));
        let pos = jumps[t].1;
        assert(jumps@[t as int].1 + 4 <= code0.len());
        let addr = match label_lookup(&labels, &jumps[t].0, Ghost(lmap)) {
            Some(a) => a,
            None => {
                proof { lemma_resolve_none(code0, lmap, jv, t + 1); }
                return Err(undefined_label());
            },
        };
        let rel = ((addr as i128) - ((pos as i128) + 4)) as u32;
        let bytes = le32_exec(rel);
        assert(bytes@.len() == 4);
        let ghost before = code@;
        let sl = bytes.as_slice();
        assert(sl@ == bytes@);
        write_at_bytes(&mut code, pos, sl);
        proof {
            assert(written_at(before, pos as int, le32(rel)).len() >= before.len());
        }
        t = t + 1;
    }
    assert(jv.subrange(0, jumps@.len() as int) =~= jv);
    Ok((code, imports, start))
}

/// The machine code of a program, the calls of imported functions still to be linked,
/// and the offset the program starts at: each instruction encoded in turn, a label
/// giving its offset in the code to the jumps and calls to it, which are resolved to the
/// distance from the end of their 4-byte address to the label.
pub fn assemble_program(instructions: Vec<AssemblyInstruction>) -> (r: (Vec<u8>, Vec<(String, usize)>, usize))
    requires
        assembled(asms_view(instructions@)) is Some,
    ensures
        assembled(asms_view(instructions@)) == Some((r.0@, pairs_view(r.1@), r.2 as nat)),
{
    match try_assemble_program(instructions) {
        Ok(x) => x,
        Err(_) => (Vec::new(), Vec::new(), 0),
    }
}

} // verus!
