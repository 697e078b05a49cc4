use rosy::assembler::{assemble_program, try_assemble_program};
use rosy::codegenerator::{from_register, generate_code, Argument, Instruction, Register, RegisterSize, RegisterType};
use rosy::compiler::compile;
use rosy::defaultfunctions::is_default_function;
use rosy::exewriter::write_at_bytes;
use rosy::instructionsimplifier::{to_assembly_instructions, try_to_assembly_instructions, AssemblyInstruction};
use rosy::livenessanalysis::analyze_liveness;
use rosy::registerallocation::interferencegraph::build_interference_graph;
use rosy::registerallocation::registerallocator::allocate_registers;
use rosy::registerallocation::variableclassifier::get_function_arguments;
use rosy::tac::{BinOp, TacInstruction, TacValue};
use rosy::variablecollector::collect_variable_names;
use rosy::parser::{BaseExpr, BaseExprData, RecExpr, RecExprData};
use rosy::typechecker::Type;
use rosy::typechecker::FunctionType;

fn s(x: &str) -> String {
    String::from(x)
}

fn sorted(mut v: Vec<String>) -> Vec<String> {
    v.sort();
    v
}

fn q(t: RegisterType) -> Register {
    Register::General(t, RegisterSize::QuadWord)
}

fn reg(t: RegisterType) -> Argument {
    Argument::Register(q(t))
}

/// a = 1; b = 2; c = a + b; return c
fn straight_line() -> Vec<TacInstruction> {
    vec![
        TacInstruction::Assign(s("a"), TacValue::Constant(1)),
        TacInstruction::Assign(s("b"), TacValue::Constant(2)),
        TacInstruction::BinOp(s("c"), TacValue::Variable(s("a")), BinOp::Add, TacValue::Variable(s("b"))),
        TacInstruction::Return(Some(TacValue::Variable(s("c")))),
    ]
}

#[test]
fn collects_every_variable_once() {
    let code = vec![
        TacInstruction::Assign(s("a"), TacValue::Constant(1)),
        TacInstruction::BinOp(s("t0"), TacValue::Variable(s("a")), BinOp::Add, TacValue::Constant(2)),
        TacInstruction::FunctionLabel(s("f"), vec![s("x"), s("y")]),
        TacInstruction::Assign(s("a"), TacValue::Variable(s("x"))),
        TacInstruction::Goto(s("L0")),
    ];
    let names = collect_variable_names(&code);
    assert_eq!(sorted(names), vec![s("a"), s("t0"), s("x"), s("y")]);
}

#[test]
fn later_function_decides_argument_position() {
    let code = vec![
        TacInstruction::FunctionLabel(s("f"), vec![s("x"), s("y")]),
        TacInstruction::FunctionLabel(s("g"), vec![s("y")]),
    ];
    let mut args = get_function_arguments(&code);
    args.sort();
    assert_eq!(args, vec![(s("x"), 0), (s("y"), 0)]);
}

#[test]
fn liveness_of_straight_line_code() {
    let live = analyze_liveness(&straight_line());
    let live: Vec<Vec<String>> = live.into_iter().map(sorted).collect();
    assert_eq!(
        live,
        vec![vec![], vec![s("a")], vec![s("a"), s("b")], vec![s("c")], vec![]]
    );
}

#[test]
fn interfering_variables_get_different_registers() {
    let code = straight_line();
    let live = analyze_liveness(&code);
    let names = collect_variable_names(&code);
    let graph = build_interference_graph(&code, &live, &names);
    assert_eq!(graph.adjacency_list.len(), 3);
    for (name, neighbours) in &graph.adjacency_list {
        for n in neighbours {
            let back = graph.adjacency_list.iter().find(|e| &e.0 == n).unwrap();
            assert!(back.1.contains(name));
        }
    }
    let alloc = allocate_registers(&graph, &get_function_arguments(&code));
    assert_eq!(alloc.len(), 3);
    let reg_of = |x: &str| alloc.iter().find(|e| e.0 == x).unwrap().1;
    assert_ne!(reg_of("a"), reg_of("b"));
    // the most constrained variables come first and take the lowest registers
    assert_eq!(alloc[0].1, 0);
    assert!(alloc.iter().all(|e| e.1 >= 0 && e.1 <= 1));
}

#[test]
fn register_numbers() {
    assert_eq!(from_register(&q(RegisterType::RCX)), 0);
    assert_eq!(from_register(&Register::Extended(8, RegisterSize::QuadWord)), 4);
    assert_eq!(from_register(&q(RegisterType::RAX)), -1);
    assert_eq!(from_register(&Register::Extended(15, RegisterSize::Byte)), -5);
}

#[test]
fn registers_compare_without_width() {
    assert_eq!(Register::General(RegisterType::RAX, RegisterSize::Byte), q(RegisterType::RAX));
    assert_ne!(q(RegisterType::RAX), q(RegisterType::RBX));
}

#[test]
fn code_for_straight_line() {
    let code = straight_line();
    let alloc = vec![(s("a"), 0), (s("b"), 1), (s("c"), 0)];
    let live = analyze_liveness(&code);
    let out = generate_code(&code, &alloc, &live).unwrap();
    assert_eq!(
        out,
        vec![
            Instruction::Mov(reg(RegisterType::RCX), Argument::Immediate(1)),
            Instruction::Mov(reg(RegisterType::RDX), Argument::Immediate(2)),
            Instruction::Add(reg(RegisterType::RCX), reg(RegisterType::RCX), reg(RegisterType::RDX)),
            Instruction::Mov(reg(RegisterType::RAX), reg(RegisterType::RCX)),
            Instruction::Ret,
            Instruction::Mov(reg(RegisterType::RCX), Argument::Immediate(0)),
            Instruction::ExternCall(s("ExitProcess")),
        ]
    );
}

#[test]
fn missing_register_is_an_error() {
    let code = straight_line();
    let live = analyze_liveness(&code);
    assert!(generate_code(&code, &vec![(s("a"), 0)], &live).is_err());
}

#[test]
fn call_saves_live_registers() {
    let code = vec![
        TacInstruction::Assign(s("a"), TacValue::Constant(1)),
        TacInstruction::Call(s("func_f"), vec![], Some(s("r"))),
        TacInstruction::BinOp(s("c"), TacValue::Variable(s("a")), BinOp::Add, TacValue::Variable(s("r"))),
    ];
    let alloc = vec![(s("a"), 0), (s("r"), 1), (s("c"), 0)];
    let live = analyze_liveness(&code);
    let out = generate_code(&code, &alloc, &live).unwrap();
    let rsp = || reg(RegisterType::RSP);
    assert_eq!(
        out,
        vec![
            Instruction::Mov(reg(RegisterType::RCX), Argument::Immediate(1)),
            Instruction::Push(reg(RegisterType::RCX)),
            Instruction::Sub(rsp(), rsp(), Argument::Immediate(40)),
            Instruction::Call(s("func_f")),
            Instruction::Add(rsp(), rsp(), Argument::Immediate(40)),
            Instruction::Pop(reg(RegisterType::RCX)),
            Instruction::Mov(reg(RegisterType::RDX), reg(RegisterType::RAX)),
            Instruction::Add(reg(RegisterType::RCX), reg(RegisterType::RCX), reg(RegisterType::RDX)),
            Instruction::Mov(reg(RegisterType::RCX), Argument::Immediate(0)),
            Instruction::ExternCall(s("ExitProcess")),
        ]
    );
}

#[test]
fn unaligned_call_is_aligned() {
    let code = vec![TacInstruction::Call(s("func_f"), vec![], None)];
    let live = analyze_liveness(&code);
    let out = generate_code(&code, &vec![], &live).unwrap();
    let rsp = || reg(RegisterType::RSP);
    assert_eq!(
        out,
        vec![
            Instruction::Sub(rsp(), rsp(), Argument::Immediate(40)),
            Instruction::Sub(rsp(), rsp(), Argument::Immediate(8)),
            Instruction::Call(s("func_f")),
            Instruction::Add(rsp(), rsp(), Argument::Immediate(8)),
            Instruction::Add(rsp(), rsp(), Argument::Immediate(40)),
            Instruction::Mov(reg(RegisterType::RCX), Argument::Immediate(0)),
            Instruction::ExternCall(s("ExitProcess")),
        ]
    );
}

#[test]
fn three_operand_forms_are_lowered() {
    let rcx = || reg(RegisterType::RCX);
    let rdx = || reg(RegisterType::RDX);
    let rax = || reg(RegisterType::RAX);
    let lowered = to_assembly_instructions(&vec![
        Instruction::Add(rcx(), rcx(), rdx()),
        Instruction::Add(rcx(), rdx(), rcx()),
        Instruction::Sub(rcx(), rdx(), rcx()),
        Instruction::Mul(rcx(), rdx(), Argument::Immediate(3)),
        Instruction::Cmp(Argument::Immediate(1), rcx()),
    ]);
    assert_eq!(
        lowered,
        vec![
            AssemblyInstruction::Add(rcx(), rdx()),
            AssemblyInstruction::Add(rcx(), rdx()),
            AssemblyInstruction::Mov(rax(), rdx()),
            AssemblyInstruction::Sub(rax(), rcx()),
            AssemblyInstruction::Mov(rcx(), rax()),
            AssemblyInstruction::Mov(rcx(), rdx()),
            AssemblyInstruction::Mul(rcx(), Argument::Immediate(3)),
            AssemblyInstruction::Cmp(rcx(), Argument::Immediate(1)),
        ]
    );
}

#[test]
fn division_saves_rdx_unless_it_takes_the_remainder() {
    let rcx = || reg(RegisterType::RCX);
    let rdx = || reg(RegisterType::RDX);
    let rax = || reg(RegisterType::RAX);
    let rsi = || reg(RegisterType::RSI);
    let lowered = to_assembly_instructions(&vec![Instruction::Div(rcx(), rsi(), rcx(), rsi())]);
    assert_eq!(
        lowered,
        vec![
            AssemblyInstruction::Push(rdx()),
            AssemblyInstruction::Mov(rax(), rcx()),
            AssemblyInstruction::Xor(rdx(), rdx()),
            AssemblyInstruction::Div(rsi()),
            AssemblyInstruction::Mov(rcx(), rax()),
            AssemblyInstruction::Mov(rsi(), rdx()),
            AssemblyInstruction::Pop(rdx()),
        ]
    );
}

#[test]
fn unsupported_operands_are_refused() {
    let r = try_to_assembly_instructions(&vec![Instruction::Add(
        Argument::Immediate(1),
        Argument::Immediate(2),
        Argument::Immediate(3),
    )]);
    assert!(r.is_err());
}

#[test]
fn encodes_register_moves() {
    let (code, imports, start) = assemble_program(vec![
        AssemblyInstruction::Mov(reg(RegisterType::RAX), reg(RegisterType::RBX)),
        AssemblyInstruction::Push(Argument::Register(Register::Extended(12, RegisterSize::QuadWord))),
        AssemblyInstruction::Ret,
    ]);
    assert_eq!(code, vec![0x48, 0x89, 0xD8, 0x49, 0x54, 0xC3]);
    assert!(imports.is_empty());
    assert_eq!(start, 0);
}

#[test]
fn resolves_backward_jumps_and_records_imports() {
    let (code, imports, start) = assemble_program(vec![
        AssemblyInstruction::Nop,
        AssemblyInstruction::ProgramStart,
        AssemblyInstruction::Label(s("L")),
        AssemblyInstruction::Nop,
        AssemblyInstruction::Jmp(s("L")),
        AssemblyInstruction::ExternCall(s("ExitProcess")),
    ]);
    assert_eq!(
        code,
        vec![0x90, 0x90, 0xE9, 0xFA, 0xFF, 0xFF, 0xFF, 0xFF, 0x15, 0, 0, 0, 0]
    );
    assert_eq!(imports, vec![(s("ExitProcess"), 9)]);
    assert_eq!(start, 1);
}

#[test]
fn undefined_label_is_an_error() {
    assert!(try_assemble_program(vec![AssemblyInstruction::Jmp(s("nowhere"))]).is_err());
}

#[test]
fn write_at_bytes_grows_with_zeros() {
    let mut buf = vec![1u8, 2];
    write_at_bytes(&mut buf, 3, &[9, 8]);
    assert_eq!(buf, vec![1, 2, 0, 9, 8]);
    write_at_bytes(&mut buf, 0, &[7]);
    assert_eq!(buf, vec![7, 2, 0, 9, 8]);
}

#[test]
fn default_function_names() {
    assert!(is_default_function("print"));
    assert!(is_default_function("println"));
    assert!(!is_default_function("printx"));
    assert!(!is_default_function("f"));
}

#[test]
fn empty_program_compiles_to_exit() {
    let lowered = compile((vec![], vec![])).unwrap();
    assert_eq!(
        lowered,
        vec![
            AssemblyInstruction::Mov(reg(RegisterType::RCX), Argument::Immediate(0)),
            AssemblyInstruction::ExternCall(s("ExitProcess")),
        ]
    );
}

#[test]
fn reading_an_undefined_variable_is_refused_by_uniquify() {
    let program = vec![BaseExpr {
        data: BaseExprData::Simple {
            expr: RecExpr {
                data: RecExprData::Variable { name: s("x") },
                row: 0,
                col_start: 0,
                col_end: 1,
                generic_data: Type::Integer,
            },
        },
        row: 0,
        col_start: 0,
        col_end: 1,
        generic_data: Type::Integer,
    }];
    assert!(rosy::uniquify::try_uniquify((program, vec![])).is_err());
}

fn from_hex(s: &str) -> Vec<u8> {
    (0..s.len()).step_by(2).map(|i| u8::from_str_radix(&s[i..i + 2], 16).unwrap()).collect()
}

/// The headers and import section the image writer produces, byte for byte.
const HEADERS_HEX: &str = "4d5a90000300000004000000ffff0000b800000000000000400000000000000000000000000000000000000000000000000000000000000000000000800000000e1fba0e00b409cd21b8014ccd21546869732070726f6772616d2063616e6e6f742062652072756e20696e20444f53206d6f64652e0d0d0a24000000000000005045000064860200000000000000000000000000f0002e020b02022d000200000008000000000000001000000010000000000040010000000010000000020000040000000000000005000200000000000060000000040000000000000300600100002000000000000010000000000000000010000000000000100000000000000000000010000000000000000000000000500000a0000000000000000000000000000000000000000000000000000000000000000000000000000000000000000000000000000000000000000000000000000000000000000000000000000000000000000000000048500000200000000000000000000000000000000000000000000000000000002e7465787400000000400000001000000002000000040000000000000000000000000000200000602e69646174610000a000000000500000000200000006000000000000000000000000000040000040";
const IMPORTS_HEX: &str = "28500000000000000000000092500000485000000000000000000000000000000000000000000000685000000000000076500000000000008650000000000000000000000000000068500000000000007650000000000000865000000000000000000000000000007c014578697450726f63657373007c0147657453746448616e646c6500007c01577269746546696c65004b45524e454c33322e646c6c0000";

#[test]
fn executable_image_layout() {
    let code = vec![0xFF, 0x15, 0, 0, 0, 0, 0xC3];
    let image = rosy::exewriter::exe_image(code, &vec![(s("ExitProcess"), 2)]).unwrap();
    assert_eq!(image.len(), 2048);
    assert_eq!(&image[0..2], b"MZ");
    assert_eq!(&image[0x80..0x84], b"PE\0\0");
    assert_eq!(image[0x94], 0xF0);
    assert_eq!(image[0..472].to_vec(), from_hex(HEADERS_HEX));
    assert!(image[472..1024].iter().all(|b| *b == 0));
    // the call's address holds the slot of ExitProcess relative to the code section
    assert_eq!(image[1024..1031].to_vec(), vec![0xFF, 0x15, 0x48, 0x40, 0, 0, 0xC3]);
    assert!(image[1031..1536].iter().all(|b| *b == 0));
    assert_eq!(image[1536..1696].to_vec(), from_hex(IMPORTS_HEX));
    assert!(image[1696..].iter().all(|b| *b == 0));
}

#[test]
fn image_refuses_unknown_imports_and_long_code() {
    assert!(rosy::exewriter::exe_image(vec![0; 8], &vec![(s("MessageBoxA"), 0)]).is_err());
    assert!(rosy::exewriter::exe_image(vec![0x90; 513], &vec![]).is_err());
    assert!(rosy::exewriter::exe_image(vec![0x90; 512], &vec![]).is_ok());
}

#[test]
fn optimiser_drops_self_moves_and_repeated_nops() {
    let rax = || reg(RegisterType::RAX);
    let out = rosy::optimiser::optimise_assembly(&vec![
        AssemblyInstruction::Nop,
        AssemblyInstruction::Nop,
        AssemblyInstruction::Mov(rax(), rax()),
        AssemblyInstruction::Nop,
        AssemblyInstruction::Mov(rax(), Argument::Register(Register::General(RegisterType::RAX, RegisterSize::Byte))),
        AssemblyInstruction::Mov(rax(), reg(RegisterType::RBX)),
        AssemblyInstruction::Nop,
    ]);
    assert_eq!(
        out,
        vec![
            AssemblyInstruction::Nop,
            AssemblyInstruction::Nop,
            AssemblyInstruction::Mov(rax(), reg(RegisterType::RBX)),
            AssemblyInstruction::Nop,
        ]
    );
}

#[test]
fn compiles_a_program_to_machine_code() {
    let lines = vec!["a = 5", "b = a + 2"];
    let (code, imports, start) = rosy::pipeline::compile_program(lines).unwrap();
    assert_eq!(start, 0);
    assert_eq!(imports, vec![(s("ExitProcess"), code.len() - 4)]);
    // ends with: mov rcx, 0; call [ExitProcess]
    assert_eq!(code[code.len() - 6..code.len() - 4].to_vec(), vec![0xFF, 0x15]);
}

#[test]
fn provided_print_code() {
    let functions = vec![
        FunctionType { name: s("print"), param_names: vec![s("value")], param_types: vec![Type::Integer], return_type: Type::Undefined, content: vec![] },
        FunctionType { name: s("print"), param_names: vec![s("value")], param_types: vec![Type::String], return_type: Type::Undefined, content: vec![] },
        FunctionType { name: s("println"), param_names: vec![s("v")], param_types: vec![Type::Integer], return_type: Type::Undefined, content: vec![] },
    ];
    let mut env = Vec::new();
    let mut code = Vec::new();
    let mut counter: usize = 3;
    rosy::defaultfunctions::add_default_functions(&functions, &mut env, &mut code, &mut counter);
    assert_eq!(counter, 5);
    assert_eq!(env.len(), 2);
    assert_eq!(env[0].label, s("func_print_int"));
    assert_eq!(env[1].label, s("func_println_int"));
    assert_eq!(code.len(), 38 + 40);
    assert_eq!(code[0], TacInstruction::FunctionLabel(s("func_print_int"), vec![s("value")]));
    assert_eq!(code[10], TacInstruction::DirectInstruction(Instruction::Label(s("print_int_loop_start_3"))));
    assert_eq!(code[37], TacInstruction::DirectInstruction(Instruction::Ret));
    assert_eq!(code[38], TacInstruction::FunctionLabel(s("func_println_int"), vec![s("v")]));
    assert_eq!(code[48], TacInstruction::DirectInstruction(Instruction::Label(s("print_int_loop_start_4"))));
    assert_eq!(
        code[57],
        TacInstruction::DirectInstruction(Instruction::Mov(
            Argument::MemoryAddressRegister(Register::General(RegisterType::RBX, RegisterSize::Byte)),
            Argument::Immediate(10)
        ))
    );
}

#[test]
fn library_functions_add_nothing() {
    let mut env = Vec::new();
    let mut code = Vec::new();
    let mut counter: usize = 7;
    rosy::libraryfunctions::add_library_functions(&vec![], &mut env, &mut code, &mut counter);
    assert!(env.is_empty() && code.is_empty());
    assert_eq!(counter, 7);
}

#[test]
fn comparison_sets_one_or_zero() {
    let code = vec![
        TacInstruction::Assign(s("a"), TacValue::Constant(2)),
        TacInstruction::BinOp(s("c"), TacValue::Variable(s("a")), BinOp::Lt, TacValue::Constant(3)),
        TacInstruction::BinOp(s("d"), TacValue::Constant(3), BinOp::Lt, TacValue::Variable(s("a"))),
    ];
    let alloc = vec![(s("a"), 0), (s("c"), 1), (s("d"), 2)];
    let live = analyze_liveness(&code);
    let out = generate_code(&code, &alloc, &live).unwrap();
    let rcx = || reg(RegisterType::RCX);
    let rdx = || reg(RegisterType::RDX);
    let rsi = || reg(RegisterType::RSI);
    assert_eq!(
        out,
        vec![
            Instruction::Mov(rcx(), Argument::Immediate(2)),
            Instruction::Cmp(rcx(), Argument::Immediate(3)),
            Instruction::Mov(rdx(), Argument::Immediate(0)),
            Instruction::Jge(s("cmp_1")),
            Instruction::Mov(rdx(), Argument::Immediate(1)),
            Instruction::Label(s("cmp_1")),
            Instruction::Cmp(rcx(), Argument::Immediate(3)),
            Instruction::Mov(rsi(), Argument::Immediate(0)),
            Instruction::Jle(s("cmp_2")),
            Instruction::Mov(rsi(), Argument::Immediate(1)),
            Instruction::Label(s("cmp_2")),
            Instruction::Mov(rcx(), Argument::Immediate(0)),
            Instruction::ExternCall(s("ExitProcess")),
        ]
    );
}

#[test]
fn constant_first_operands_of_commutative_operations() {
    let code = vec![
        TacInstruction::Assign(s("a"), TacValue::Constant(2)),
        TacInstruction::BinOp(s("b"), TacValue::Constant(1), BinOp::Add, TacValue::Variable(s("a"))),
        TacInstruction::BinOp(s("c"), TacValue::Constant(0), BinOp::And, TacValue::Constant(1)),
        TacInstruction::BinOp(s("d"), TacValue::Variable(s("a")), BinOp::Or, TacValue::Variable(s("c"))),
    ];
    let alloc = vec![(s("a"), 0), (s("b"), 1), (s("c"), 2), (s("d"), 3)];
    let live = analyze_liveness(&code);
    let out = generate_code(&code, &alloc, &live).unwrap();
    let rcx = || reg(RegisterType::RCX);
    let rdx = || reg(RegisterType::RDX);
    let rsi = || reg(RegisterType::RSI);
    let rdi = || reg(RegisterType::RDI);
    assert_eq!(
        out,
        vec![
            Instruction::Mov(rcx(), Argument::Immediate(2)),
            Instruction::Add(rdx(), rcx(), Argument::Immediate(1)),
            Instruction::Mov(rsi(), Argument::Immediate(0)),
            Instruction::And(rsi(), rsi(), Argument::Immediate(1)),
            Instruction::Or(rdi(), rcx(), rsi()),
            Instruction::Mov(rcx(), Argument::Immediate(0)),
            Instruction::ExternCall(s("ExitProcess")),
        ]
    );
}

#[test]
fn encodes_logic_instructions() {
    let rcx = || reg(RegisterType::RCX);
    let rdx = || reg(RegisterType::RDX);
    let (code, _, _) = assemble_program(vec![
        AssemblyInstruction::And(rcx(), rdx()),
        AssemblyInstruction::Or(rcx(), rdx()),
        AssemblyInstruction::And(rcx(), Argument::Immediate(1)),
        AssemblyInstruction::Or(rcx(), Argument::Immediate(1)),
        AssemblyInstruction::Not(rcx()),
    ]);
    assert_eq!(
        code,
        vec![
            0x48, 0x21, 0xD1, 0x48, 0x09, 0xD1, 0x48, 0x81, 0xE1, 1, 0, 0, 0, 0x48, 0x81, 0xC9, 1, 0, 0, 0, 0x48, 0xF7, 0xD1,
        ]
    );
}
