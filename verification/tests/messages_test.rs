use rosy::codegenerator::{generate_code, Argument, Instruction, Register, RegisterSize, RegisterType};
use rosy::instructionsimplifier::{to_assembly_instructions, AssemblyInstruction};
use rosy::livenessanalysis::analyze_liveness;
use rosy::parser::parse_strings;
use rosy::parser::{BaseExpr, BaseExprData, RecExpr, RecExprData};
use rosy::tac::{TacInstruction, TacValue, UnOp};
use rosy::tokenizer::{tokenize, Error};
use rosy::typechecker::{type_check_program, Type};

fn s(x: &str) -> String {
    String::from(x)
}

fn reg(t: RegisterType) -> Argument {
    Argument::Register(Register::General(t, RegisterSize::QuadWord))
}

fn located(message: &str, row: usize, col_start: usize, col_end: usize) -> Error {
    Error::LocationError { message: s(message), row, col_start, col_end }
}

fn location_message(r: Result<Vec<rosy::parser::BaseExpr<()>>, Error>) -> String {
    match r {
        Err(Error::LocationError { message, .. }) => message,
        other => panic!("expected a location error, got {:?}", other),
    }
}

fn type_error(lines: Vec<&str>) -> Error {
    type_check_program(parse_strings(lines).unwrap()).unwrap_err()
}

fn type_error_message(lines: Vec<&str>) -> String {
    match type_error(lines) {
        Error::TypeError { message, .. } => message,
        other => panic!("expected a type error, got {:?}", other),
    }
}

#[test]
fn wrong_indentation_is_reported_with_its_message() {
    assert_eq!(tokenize(vec!["  a"]).unwrap_err(), located("Invalid indentation", 0, 0, 2));
}

#[test]
fn invalid_symbol_is_reported_with_the_symbol() {
    match tokenize(vec!["a = 1 ! 2"]) {
        Err(Error::LocationError { message, .. }) => assert_eq!(message, "Invalid symbol: !"),
        other => panic!("expected a location error, got {:?}", other),
    }
}

#[test]
fn else_without_if_is_reported() {
    assert_eq!(
        location_message(parse_strings(vec!["else", "    x = 1"])),
        "Could not find if statement to add else statement to"
    );
    assert_eq!(
        location_message(parse_strings(vec!["x = 2", "else if x == 2", "    x = 1"])),
        "Could not find if statement to add else-if statement to"
    );
}

#[test]
fn type_errors_carry_their_messages() {
    assert_eq!(
        type_error(vec!["if 1", "    x = 2"]),
        Error::TypeError {
            message: s("If condition must be of type Boolean"),
            expected: Type::Boolean,
            found: Type::Integer,
            row: 0,
            col_start: 3,
            col_end: 4,
        }
    );
    assert_eq!(
        type_error(vec!["if true", "    x = 1", "y = x"]),
        Error::TypeError {
            message: s("Variable 'x' is not defined"),
            expected: Type::Undefined,
            found: Type::Undefined,
            row: 2,
            col_start: 4,
            col_end: 5,
        }
    );
    assert_eq!(type_error_message(vec!["x = 1 + true"]), "Invalid operand types for addition");
    assert_eq!(type_error_message(vec!["x = 1 - true"]), "Invalid operand types for subtraction");
    assert_eq!(type_error_message(vec!["x = [1, true]"]), "List elements must be of the same type");
    assert_eq!(type_error_message(vec!["x = 1 == true"]), "Invalid operand types for equality check");
    assert_eq!(type_error_message(vec!["x = 1", "y = x[0]"]), "Variable 'x' is of type Integer, not a list");
}

#[test]
fn index_out_of_bounds_names_index_and_length() {
    match rosy::pipeline::run_pipeline(vec!["a = [1, 2]", "print(a[5])"]) {
        Err(Error::LocationError { message, .. }) => assert_eq!(message, "Index 5 out of bounds for list of length 2"),
        other => panic!("expected a location error, got {:?}", other),
    }
    let wrapped = format!("Index {} out of bounds for list of length 2", -1i32 as usize);
    match rosy::pipeline::run_pipeline(vec!["a = [1, 2]", "print(a[-1])"]) {
        Err(Error::LocationError { message, .. }) => assert_eq!(message, wrapped),
        other => panic!("expected a location error, got {:?}", other),
    }
}

#[test]
fn runtime_error_keeps_what_was_printed_before() {
    let program = parse_strings(vec!["println(1)", "print(2)", "x = y"]).unwrap();
    let (terminal, error) = rosy::interpreter::interpret_with_output(program);
    assert_eq!(terminal, vec![s("1"), s("2")]);
    match error {
        Some(Error::LocationError { message, .. }) => assert_eq!(message, "Variable not found: y"),
        other => panic!("expected a location error, got {:?}", other),
    }
}

#[test]
fn list_in_three_address_code_is_reported() {
    assert_eq!(
        rosy::pipeline::compile_program(vec!["a = [2, 3, 4]", "print(a[0])"]).unwrap_err(),
        Error::SimpleError { message: s("List expressions are not supported in TAC generation") }
    );
}

/// a = 1; b = not a; return b, with `a` in rcx and `b` in rdx.
fn negation_code() -> Vec<TacInstruction> {
    vec![
        TacInstruction::Assign(s("a"), TacValue::Constant(1)),
        TacInstruction::UnaryOp(s("b"), UnOp::Neg, TacValue::Variable(s("a"))),
        TacInstruction::Return(Some(TacValue::Variable(s("b")))),
    ]
}

#[test]
fn negation_moves_the_operand_and_subtracts_zero() {
    let code = negation_code();
    let alloc = vec![(s("a"), 0), (s("b"), 1)];
    let out = generate_code(&code, &alloc, &analyze_liveness(&code)).unwrap();
    assert_eq!(
        out,
        vec![
            Instruction::Mov(reg(RegisterType::RCX), Argument::Immediate(1)),
            Instruction::Mov(reg(RegisterType::RDX), reg(RegisterType::RCX)),
            Instruction::Sub(reg(RegisterType::RDX), reg(RegisterType::RDX), Argument::Immediate(0)),
            Instruction::Mov(reg(RegisterType::RAX), reg(RegisterType::RDX)),
            Instruction::Ret,
            Instruction::Mov(reg(RegisterType::RCX), Argument::Immediate(0)),
            Instruction::ExternCall(s("ExitProcess")),
        ]
    );
    let lowered = to_assembly_instructions(&out);
    assert_eq!(
        lowered,
        vec![
            AssemblyInstruction::Mov(reg(RegisterType::RCX), Argument::Immediate(1)),
            AssemblyInstruction::Mov(reg(RegisterType::RDX), reg(RegisterType::RCX)),
            AssemblyInstruction::Sub(reg(RegisterType::RDX), Argument::Immediate(0)),
            AssemblyInstruction::Mov(reg(RegisterType::RAX), reg(RegisterType::RDX)),
            AssemblyInstruction::Ret,
            AssemblyInstruction::Mov(reg(RegisterType::RCX), Argument::Immediate(0)),
            AssemblyInstruction::ExternCall(s("ExitProcess")),
        ]
    );
    let (bytes, imports, start) = rosy::assembler::assemble_program(lowered);
    assert_eq!(
        bytes,
        vec![
            0x48, 0xB9, 1, 0, 0, 0, 0, 0, 0, 0, // mov rcx, 1
            0x48, 0x89, 0xCA, // mov rdx, rcx
            0x48, 0x81, 0xEA, 0, 0, 0, 0, // sub rdx, 0
            0x48, 0x89, 0xD0, // mov rax, rdx
            0xC3, // ret
            0x48, 0xB9, 0, 0, 0, 0, 0, 0, 0, 0, // mov rcx, 0
            0xFF, 0x15, 0, 0, 0, 0, // call [ExitProcess]
        ]
    );
    assert_eq!(imports, vec![(s("ExitProcess"), 36)]);
    assert_eq!(start, 0);
}

/// The stages that `compile_program` runs, called one after the other.
fn staged(lines: Vec<&str>) -> (Vec<u8>, Vec<(String, usize)>, usize) {
    let parsed = parse_strings(lines).unwrap();
    let desugared = rosy::desugarer::desugar(parsed);
    let typed = type_check_program(desugared).unwrap();
    let renamed = rosy::uniquify::try_uniquify(typed).unwrap();
    let lowered = rosy::compiler::compile(renamed).unwrap();
    let optimised = rosy::optimiser::optimise_assembly(&lowered);
    rosy::assembler::try_assemble_program(optimised).unwrap()
}

#[test]
fn compile_program_gives_the_staged_machine_code() {
    for program in [
        vec!["a = 5", "b = a + 2"],
        vec!["a = 2", "if a == 2", "    print(1)", "else", "    print(2)"],
        vec!["fun f(a, b)", "    return a + b", "print(f(1, 2))"],
        vec!["for i in 3", "    print(i)"],
    ] {
        let (code, imports, start) = rosy::pipeline::compile_program(program.clone()).unwrap();
        assert_eq!((code.clone(), imports.clone(), start), staged(program.clone()), "{:?}", program);
        // the program ends by calling ExitProcess
        let n = code.len();
        assert_eq!(code[n - 6..n].to_vec(), vec![0xFF, 0x15, 0, 0, 0, 0]);
        assert!(imports.contains(&(s("ExitProcess"), n - 4)));
    }
}

#[test]
fn listing_shows_each_stage_of_the_back_end() {
    let (tac, liveness, instructions, assembly) = rosy::compiler::compile_with_listing((vec![], vec![])).unwrap();
    assert!(tac.is_empty());
    assert_eq!(liveness.len(), 1);
    assert_eq!(
        instructions,
        vec![Instruction::Mov(reg(RegisterType::RCX), Argument::Immediate(0)), Instruction::ExternCall(s("ExitProcess"))]
    );
    assert_eq!(assembly, rosy::compiler::compile((vec![], vec![])).unwrap());
}

#[test]
fn typecheck_pipeline_gives_the_status() {
    assert_eq!(rosy::pipeline::run_typecheck_pipeline(vec!["x = 1", "y = x + 2"]), Ok(s("Typecheck passed")));
    assert_eq!(rosy::pipeline::run_typecheck_pipeline(vec!["x = 1 + \"a\""]), Err(String::new()));
    assert_eq!(rosy::pipeline::run_typecheck_pipeline(vec!["  x = 1"]), Err(String::new()));
    assert_eq!(rosy::pipeline::typecheck_report(vec!["x = 1"]).unwrap(), vec![s("Variable 'x' has type Integer")]);
}

#[test]
fn unsupported_expression_names_its_data() {
    let five = RecExpr { data: RecExprData::Number { number: 5 }, row: 0, col_start: 5, col_end: 6, generic_data: Type::Integer };
    let minus = RecExpr { data: RecExprData::Minus { right: Box::new(five) }, row: 0, col_start: 4, col_end: 6, generic_data: Type::Integer };
    let program = vec![BaseExpr {
        data: BaseExprData::VariableAssignment { var_name: s("x"), expr: minus },
        row: 0,
        col_start: 0,
        col_end: 6,
        generic_data: Type::Undefined,
    }];
    assert_eq!(
        rosy::tac::generate_tac(program, vec![]).unwrap_err(),
        Error::SimpleError {
            message: s("Unsupported expression type Minus { right: RecExpr { data: Number { number: 5 }, row: 0, col_start: 5, col_end: 6, generic_data: Integer } }")
        }
    );
}
