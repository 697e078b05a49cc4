use rosy::codegenerator::{Argument, Instruction, Register, RegisterSize, RegisterType};
use rosy::instructionsimplifier::AssemblyInstruction;
use rosy::listing::{
    argument_to_string, assembly_instruction_to_string, error_report, expressions_to_string,
    instruction_to_string, register_to_string, token_line_to_string, token_to_string,
};
use rosy::tokenizer::tokenize;
use rosy::parser::parse_strings;
use rosy::text::quoted_string;
use rosy::tokenizer::Error;
use rosy::typechecker::Type;

fn rq(t: RegisterType) -> Argument {
    Argument::Register(Register::General(t, RegisterSize::QuadWord))
}

#[test]
fn register_names() {
    assert_eq!(register_to_string(&Register::General(RegisterType::RAX, RegisterSize::Byte)), "al");
    assert_eq!(register_to_string(&Register::General(RegisterType::RSI, RegisterSize::Byte)), "sil");
    assert_eq!(register_to_string(&Register::General(RegisterType::RBP, RegisterSize::Word)), "bp");
    assert_eq!(register_to_string(&Register::General(RegisterType::RDX, RegisterSize::DoubleWord)), "edx");
    assert_eq!(register_to_string(&Register::General(RegisterType::RSP, RegisterSize::QuadWord)), "rsp");
    assert_eq!(register_to_string(&Register::Extended(9, RegisterSize::DoubleWord)), "r9d");
    assert_eq!(register_to_string(&Register::Extended(10, RegisterSize::Word)), "r10w");
    assert_eq!(register_to_string(&Register::Extended(8, RegisterSize::Byte)), "r8b");
    assert_eq!(register_to_string(&Register::Extended(12, RegisterSize::QuadWord)), "r12");
}

#[test]
fn operand_text() {
    assert_eq!(argument_to_string(&Argument::Immediate(-5)), "-5");
    assert_eq!(argument_to_string(&Argument::Immediate(1234)), "1234");
    assert_eq!(argument_to_string(&Argument::Label(String::from("loop"))), "loop");
    assert_eq!(argument_to_string(&Argument::MemoryAddressDirect(8)), "[8]");
    assert_eq!(
        argument_to_string(&Argument::MemoryAddressRegister(Register::General(RegisterType::RBX, RegisterSize::QuadWord))),
        "[rbx]"
    );
    assert_eq!(argument_to_string(&rq(RegisterType::RCX)), "rcx");
}

#[test]
fn machine_instruction_lines() {
    let add = Instruction::Add(rq(RegisterType::RCX), rq(RegisterType::RDX), Argument::Immediate(3));
    assert_eq!(instruction_to_string(&add), "ADD rcx <- rdx + 3");
    let mov = Instruction::Mov(rq(RegisterType::RAX), Argument::Immediate(0));
    assert_eq!(instruction_to_string(&mov), "MOV rax <- 0");
    let div = Instruction::Div(rq(RegisterType::RCX), rq(RegisterType::RDX), rq(RegisterType::RAX), rq(RegisterType::RSI));
    assert_eq!(instruction_to_string(&div), "DIV rax / rsi -> rcx, rdx");
    let xor = Instruction::Xor(rq(RegisterType::RDX), rq(RegisterType::RDX), rq(RegisterType::RDX));
    assert_eq!(instruction_to_string(&xor), "XOR rdx <- rdx, rdx");
    let cmp = Instruction::Cmp(rq(RegisterType::RCX), Argument::Immediate(0));
    assert_eq!(instruction_to_string(&cmp), "CMP rcx =? 0");
    assert_eq!(instruction_to_string(&Instruction::Jmp(String::from("L1"))), "JMP \"L1\"");
    assert_eq!(instruction_to_string(&Instruction::Je(String::from("else_0"))), "JE \"else_0\"");
    assert_eq!(instruction_to_string(&Instruction::Label(String::from("main"))), "main:");
    assert_eq!(
        instruction_to_string(&Instruction::ExternCall(String::from("ExitProcess"))),
        "EXTERN_CALL ExitProcess (call rax)"
    );
    assert_eq!(instruction_to_string(&Instruction::Call(String::from("f"))), "CALL f");
    assert_eq!(instruction_to_string(&Instruction::Push(rq(RegisterType::RBX))), "PUSH rbx");
    assert_eq!(instruction_to_string(&Instruction::Ret), "RET");
    assert_eq!(instruction_to_string(&Instruction::ProgramStart), "; Program Start");
}

#[test]
fn assembly_instruction_lines() {
    let mov = AssemblyInstruction::Mov(rq(RegisterType::RAX), Argument::Immediate(1));
    assert_eq!(assembly_instruction_to_string(&mov), "MOV rax 1");
    let sub = AssemblyInstruction::Sub(rq(RegisterType::RSP), Argument::Immediate(8));
    assert_eq!(assembly_instruction_to_string(&sub), "SUB rsp 8");
    assert_eq!(assembly_instruction_to_string(&AssemblyInstruction::Div(rq(RegisterType::RCX))), "DIV rcx");
    assert_eq!(assembly_instruction_to_string(&AssemblyInstruction::Jne(String::from("L2"))), "JNE L2");
    assert_eq!(assembly_instruction_to_string(&AssemblyInstruction::Label(String::from("L2"))), "L2:");
    assert_eq!(
        assembly_instruction_to_string(&AssemblyInstruction::ExternCall(String::from("WriteFile"))),
        "EXTERN_CALL WriteFile"
    );
    assert_eq!(assembly_instruction_to_string(&AssemblyInstruction::Nop), "NOP");
    assert_eq!(assembly_instruction_to_string(&AssemblyInstruction::Comment(String::from("save"))), "; save");
}

#[test]
fn quoting_escapes_special_characters() {
    assert_eq!(quoted_string("plain"), "\"plain\"");
    assert_eq!(quoted_string("a\"b\\c\nd\te"), format!("{:?}", "a\"b\\c\nd\te"));
    assert_eq!(quoted_string(""), "\"\"");
}

#[test]
fn simple_error_report() {
    let error = Error::SimpleError { message: String::from("Line too long") };
    let lines: Vec<&str> = vec!["a = 1"];
    assert_eq!(error_report(&error, &lines), vec![String::from("Error: Line too long")]);
}

#[test]
fn location_error_report() {
    let error = Error::LocationError { message: String::from("Unexpected symbol"), row: 1, col_start: 2, col_end: 4 };
    let lines: Vec<&str> = vec!["a = 1", "b $$ 2"];
    assert_eq!(
        error_report(&error, &lines),
        vec![
            String::from("b $$ 2"),
            String::from("  ^^"),
            String::from("Error: Unexpected symbol (line 2, col 3)"),
        ]
    );
}

#[test]
fn type_error_report() {
    let error = Error::TypeError {
        message: String::from("Mismatched types"),
        expected: Type::Integer,
        found: Type::List(Box::new(Type::String)),
        row: 0,
        col_start: 0,
        col_end: 1,
    };
    let lines: Vec<&str> = vec!["x + [\"a\"]"];
    assert_eq!(
        error_report(&error, &lines),
        vec![
            String::from("x + [\"a\"]"),
            String::from("^"),
            String::from("Type error: Mismatched types (line 1, col 1)"),
            String::from("Expected type: Integer"),
            String::from("Found type: List(String)"),
        ]
    );
}

#[test]
fn assignment_listing() {
    let program = parse_strings(vec!["a = 1 + 2 * b"]).unwrap();
    assert_eq!(expressions_to_string(&program), "VarAssign(\"a\", (Num(1) + (Num(2) * Var(\"b\"))))\n");
}

#[test]
fn block_listing() {
    let program = parse_strings(vec!["if true", "    print(1)", "    x = [1, 2]", "for i in 3", "    y = not false"]).unwrap();
    assert_eq!(
        expressions_to_string(&program),
        "IfSt(Bool(true))\n  Call(\"print\" with (Num(1), ))  VarAssign(\"x\", [Num(1), Num(2), ])\n\
         For(\"i\" in Num(3)\n  VarAssign(\"y\", (not Bool(false))))\n"
    );
}

#[test]
fn function_listing() {
    let program = parse_strings(vec!["fun f(a, b)", "    return a - -b", "s = \"hi\""]).unwrap();
    assert_eq!(
        expressions_to_string(&program),
        "fun f(a, b)\n  Return((Var(\"a\") - (- Var(\"b\"))))\nVarAssign(\"s\", Str(\"hi\"))\n"
    );
}

#[test]
fn token_listing() {
    let lines = tokenize(vec!["x = \"hi\" + 12"]).unwrap();
    let tokens = &lines[0].tokens;
    assert_eq!(token_to_string(&tokens[0]), "Var(\"x\")");
    assert_eq!(token_to_string(&tokens[2]), "Str(\"hi\")");
    assert_eq!(token_to_string(&tokens[4]), "Num(12)");
    assert_eq!(token_line_to_string(&lines[0]), "Var(\"x\") Sym= Str(\"hi\") Sym+ Num(12) \n");
}
