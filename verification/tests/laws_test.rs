use rosy::desugarer::desugar;
use rosy::parser::{parse_strings, BaseExprData};
use rosy::registerallocation::interferencegraph::build_interference_graph;
use rosy::tac::{TacInstruction, TacValue, BinOp};
use rosy::tokenizer::{get_symbol_from_type, get_symbol_type};
use rosy::typechecker::type_check_program;
use rosy::typechecker::Type;
use rosy::tokenizer::Error;
use rosy::uniquify::try_uniquify;
use rosy::instructionsimplifier::AssemblyInstruction;

fn s(x: &str) -> String {
    String::from(x)
}

#[test]
fn symbol_text_round_trip() {
    let texts = [
        "=", "+", "-", "*", "/", "^", ".", ",", "(", ")", "[", "]", "==", "!=", ">", ">=", "<", "<=", "or", "and",
        "not", "for", "in", "if", "else", "fun", "\"", "return", "break", "+=", "true", "false",
    ];
    for text in texts {
        match get_symbol_type(&s(text)) {
            Ok(symbol) => assert_eq!(get_symbol_from_type(&symbol), text),
            Err(e) => panic!("{} is not a symbol: {:?}", text, e),
        }
    }
    assert!(get_symbol_type(&s("=>")).is_err());
}

#[test]
fn desugaring_twice_is_desugaring_once() {
    let lines = vec!["a = 1", "a += 2", "if true", "    a += a * 3", "for i in 2", "    a += i"];
    let once = desugar(parse_strings(lines.clone()).unwrap());
    let twice = desugar(desugar(parse_strings(lines).unwrap()));
    assert_eq!(once, twice);
    assert_eq!(once.len(), 4);
    assert!(!matches!(once[1].data, BaseExprData::PlusEqualsStatement { .. }));
}

#[test]
fn renaming_keeps_places_and_signatures() {
    let lines = vec!["fun f(a)", "    return a + 1", "x = 2", "y = f(x)", "if true", "    x = y"];
    let typed = type_check_program(desugar(parse_strings(lines).unwrap())).unwrap();
    let places: Vec<(usize, usize, usize)> = typed.0.iter().map(|b| (b.row, b.col_start, b.col_end)).collect();
    let signatures: Vec<(String, usize)> = typed.1.iter().map(|f| (f.name.clone(), f.param_names.len())).collect();
    let renamed = try_uniquify(typed).unwrap();
    assert_eq!(renamed.0.iter().map(|b| (b.row, b.col_start, b.col_end)).collect::<Vec<_>>(), places);
    assert_eq!(renamed.1.iter().map(|f| (f.name.clone(), f.param_names.len())).collect::<Vec<_>>(), signatures);
}

#[test]
fn interference_is_symmetric() {
    let code = vec![
        TacInstruction::Assign(s("a"), TacValue::Constant(1)),
        TacInstruction::Assign(s("b"), TacValue::Constant(2)),
        TacInstruction::BinOp(s("c"), TacValue::Variable(s("a")), BinOp::Add, TacValue::Variable(s("b"))),
        TacInstruction::Return(Some(TacValue::Variable(s("c")))),
    ];
    let liveness = rosy::livenessanalysis::analyze_liveness(&code);
    let names = rosy::variablecollector::collect_variable_names(&code);
    let graph = build_interference_graph(&code, &liveness, &names);
    for (x, neighbours) in &graph.adjacency_list {
        assert!(!neighbours.contains(x));
        for y in neighbours {
            let back = graph.adjacency_list.iter().find(|(n, _)| n == y).unwrap();
            assert!(back.1.contains(x));
        }
    }
    let a = graph.adjacency_list.iter().find(|(n, _)| n == "a").unwrap();
    assert_eq!(a.1, vec![s("b")]);
}

#[test]
fn compiling_twice_gives_the_same_code() {
    let lines = vec!["fun f(a, b)", "    return a * b - 1", "x = 3", "y = f(x, 4)", "print(y + x)"];
    let first = rosy::pipeline::compile_program(lines.clone()).unwrap();
    let second = rosy::pipeline::compile_program(lines).unwrap();
    assert_eq!(first, second);
}

#[test]
fn loop_variables_get_fresh_names() {
    let lines = vec!["for i in 2", "    x = i", "for i in 3", "    y = i"];
    let typed = type_check_program(desugar(parse_strings(lines).unwrap())).unwrap();
    let renamed = try_uniquify(typed).unwrap();
    let names: Vec<String> = renamed
        .0
        .iter()
        .filter_map(|b| match &b.data {
            BaseExprData::ForLoop { var_name, .. } => Some(var_name.clone()),
            _ => None,
        })
        .collect();
    assert_eq!(names, vec![s("i0"), s("i1")]);
}

#[test]
fn token_lines_follow_the_non_blank_lines() {
    let lines = vec!["a = 1", "", "\tif b == \"x y\"", "  ", "    print(a)"];
    let tls = rosy::tokenizer::tokenize(lines).unwrap();
    assert_eq!(tls.len(), 3);
    let rows: Vec<usize> = vec![0, 2, 4];
    let indents: Vec<usize> = vec![0, 1, 1];
    for (k, tl) in tls.iter().enumerate() {
        assert_eq!(tl.indentation, indents[k]);
        for (i, t) in tl.tokens.iter().enumerate() {
            assert_eq!(t.row, rows[k]);
            assert!(t.col_start < t.col_end);
            if i + 1 < tl.tokens.len() {
                assert!(t.col_end <= tl.tokens[i + 1].col_start);
            }
        }
    }
}

#[test]
fn equality_never_fails_once_both_sides_have_values() {
    let out = rosy::pipeline::run_pipeline(vec![
        "print(1 == 1)",
        "print([1] == [1])",
        "print(1 != \"a\")",
        "print(true == 1)",
        "print(\"a\" == \"a\")",
    ])
    .unwrap();
    assert_eq!(out, vec![s("truefalsetruefalsetrue")]);
}

#[test]
fn comparisons_need_numbers_and_equality_needs_one_type() {
    let err = |lines: Vec<&str>| type_check_program(parse_strings(lines).unwrap()).unwrap_err();
    assert_eq!(
        err(vec!["x = 1 < true"]),
        Error::TypeError {
            message: s("Invalid operand types for less-than check"),
            expected: Type::Integer,
            found: Type::Boolean,
            row: 0,
            col_start: 8,
            col_end: 12,
        }
    );
    assert_eq!(
        err(vec!["x = true == 1"]),
        Error::TypeError {
            message: s("Invalid operand types for equality check"),
            expected: Type::Boolean,
            found: Type::Integer,
            row: 0,
            col_start: 4,
            col_end: 13,
        }
    );
    assert!(type_check_program(parse_strings(vec!["x = 1 <= 2", "y = true != false"]).unwrap()).is_ok());
}

#[test]
fn no_register_above_the_number_of_neighbours() {
    // a, b and c all live at once, d alone
    let code = vec![
        TacInstruction::Assign(s("a"), TacValue::Constant(1)),
        TacInstruction::Assign(s("b"), TacValue::Constant(2)),
        TacInstruction::Assign(s("c"), TacValue::Constant(3)),
        TacInstruction::BinOp(s("t"), TacValue::Variable(s("a")), BinOp::Add, TacValue::Variable(s("b"))),
        TacInstruction::BinOp(s("d"), TacValue::Variable(s("t")), BinOp::Add, TacValue::Variable(s("c"))),
        TacInstruction::Return(Some(TacValue::Variable(s("d")))),
    ];
    let live = rosy::livenessanalysis::analyze_liveness(&code);
    let names = rosy::variablecollector::collect_variable_names(&code);
    let graph = build_interference_graph(&code, &live, &names);
    let alloc = rosy::registerallocation::registerallocator::allocate_registers(&graph, &vec![]);
    assert_eq!(alloc.len(), graph.adjacency_list.len());
    for (name, colour) in &alloc {
        let node = graph.adjacency_list.iter().find(|e| &e.0 == name).unwrap();
        assert!(*colour >= 0 && (*colour as usize) <= node.1.len());
    }
    let colour_of = |x: &str| alloc.iter().find(|e| e.0 == x).unwrap().1;
    assert_ne!(colour_of("a"), colour_of("b"));
    assert_ne!(colour_of("a"), colour_of("c"));
    assert_ne!(colour_of("b"), colour_of("c"));
}

#[test]
fn forward_jumps_hold_the_distance_to_their_label() {
    let (code, imports, start) = rosy::assembler::try_assemble_program(vec![
        AssemblyInstruction::Jmp(s("end")),
        AssemblyInstruction::Nop,
        AssemblyInstruction::Je(s("end")),
        AssemblyInstruction::Label(s("end")),
        AssemblyInstruction::Ret,
    ])
    .unwrap();
    // jmp at 0 (its address ends at 5), nop at 5, je at 6 (its address ends at 12), label at 12
    assert_eq!(code, vec![0xE9, 7, 0, 0, 0, 0x90, 0x0F, 0x84, 0, 0, 0, 0, 0xC3]);
    assert!(imports.is_empty());
    assert_eq!(start, 0);
}

#[test]
fn desugaring_keeps_each_statement_in_its_place() {
    let lines = vec!["a = 1", "a += 2", "if a == 3", "    a += 1", "print(a)"];
    let parsed = parse_strings(lines.clone()).unwrap();
    let out = desugar(parse_strings(lines).unwrap());
    assert_eq!(out.len(), parsed.len());
    for (before, after) in parsed.iter().zip(out.iter()) {
        assert_eq!((before.row, before.col_start, before.col_end), (after.row, after.col_start, after.col_end));
    }
    assert_eq!(out[0], parsed[0]);
    assert_eq!(out[3], parsed[3]);
    match &out[1].data {
        BaseExprData::VariableAssignment { var_name, .. } => assert_eq!(var_name, "a"),
        other => panic!("expected an assignment, got {:?}", other),
    }
    assert!(matches!(out[2].data, BaseExprData::IfStatement { .. }));
}
