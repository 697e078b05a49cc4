//! The stages of the language put together: from source lines to a run program, or to
//! a type-checked one.
use vstd::prelude::*;
use vstd::string::StrSliceExecFns;
use crate::tokenizer::Error;
use crate::tokenizer::lines_view;
use crate::parser::parse_strings;
use crate::parser::parse_spec;
use crate::parser::bases_view;
use crate::parser::ErrorView;
use crate::parser::error_matches;
use crate::desugarer::desugar;
use crate::desugarer::desugar_stmts;
use crate::desugarer::stmts_fit;
use crate::desugarer::stmts_fit_exec;
use crate::typechecker::type_check_program;
use crate::typechecker::check_program;
use crate::typechecker::stmts_checkable;
use crate::typechecker::stmts_are_checkable;
use crate::typechecker::type_error_matches;
use crate::typechecker::variable_type_report;
use crate::typechecker::stmts_report;
use crate::interpreter::interpret;
use crate::interpreter::run_program;
use crate::interpreter::run_error_matches;
use crate::interpreter::term_view;
use crate::interpreter::Terminal;
use crate::uniquify::try_uniquify;
use crate::uniquify::uniq_program;
use crate::tac::tac_program;
use crate::compiler::compile;
use crate::compiler::back_end_gives;
use crate::compiler::back_end_fails;
use crate::compiler::computed;
use crate::optimiser::optimise_assembly;
use crate::optimiser::optimise_from;
use crate::instructionsimplifier::asms_view;
use crate::assembler::try_assemble_program;
use crate::assembler::assembled;
use crate::assembler::pairs_view;

verus! {

/// The longest line, in characters, that the tokenizer takes.
pub open spec fn line_limit() -> nat {
    (usize::MAX / 64) as nat
}

/// Whether every line is short enough for the tokenizer.
pub open spec fn lines_fit(lines: Seq<Seq<char>>) -> bool {
    forall|i: int| 0 <= i < lines.len() ==> (#[trigger] lines[i]).len() <= line_limit()
}

fn check_line_lengths(lines: &Vec<&str>) -> (r: bool)
    ensures
        r == lines_fit(lines_view(lines@)),
{
    let mut i: usize = 0;
    while i < lines.len()
        invariant
            i <= lines@.len(),
            forall|j: int| 0 <= j < i ==> (#[trigger] lines@[j])@.len() <= line_limit(),
        decreases lines@.len() - i,
    {
        if lines[i].unicode_len() > usize::MAX / 64 {
            assert(lines_view(lines@)[i as int] == lines@[i as int]@);
            return false;
        }
        i = i + 1;
    }
    assert forall|j: int| 0 <= j < lines_view(lines@).len() implies (#[trigger] lines_view(lines@)[j]).len() <= line_limit() by {
        assert(lines_view(lines@)[j] == lines@[j]@);
    }
    true
}

fn too_long_error() -> (r: Error)
    ensures
        r matches Error::SimpleError { message } && message@ == "Line too long"@,
{
    Error::SimpleError { message: String::from_str("Line too long") }
}

/// Parses and runs a program; gives the lines it printed (the last one still open), or
/// the first error.
pub fn run_pipeline(lines: Vec<&str>) -> (r: Result<Terminal, Error>)
    ensures
        !lines_fit(lines_view(lines@)) ==> (r matches Err(e) && e matches Error::SimpleError { message } && message@ == "Line too long"@),
        lines_fit(lines_view(lines@)) ==> match parse_spec(lines_view(lines@)) {
            Err(v) => r matches Err(e) && error_matches(e, v),
            Ok(program) => match run_program(program) {
                Ok(st) => r matches Ok(t) && term_view(t@) == st.term,
                Err(v) => r matches Err(e) && run_error_matches(e, v),
            },
        },
{
    if !check_line_lengths(&lines) {
        return Err(too_long_error());
    }
    proof {
        assert forall|i: int| 0 <= i < lines@.len() implies (#[trigger] lines@[i])@.len() <= usize::MAX / 64 by {
            assert(lines_view(lines@)[i] == lines@[i]@);
        }
    }
    let base_expressions = match parse_strings(lines) {
        Ok(b) => b,
        Err(e) => return Err(e),
    };
    interpret(base_expressions)
}

/// What type checking a parsed program gives: the report of the assigned variables'
/// types, or why it fails.
pub open spec fn typecheck_outcome(program: Seq<crate::parser::BaseExprView<()>>) -> Option<Result<Seq<Seq<char>>, crate::typechecker::TypeErrorView>> {
    if !stmts_fit(program) || !stmts_checkable(desugar_stmts(program)) {
        None
    } else {
        match check_program(desugar_stmts(program)) {
            Ok((typed, _)) => Some(Ok(stmts_report(typed))),
            Err(v) => Some(Err(v)),
        }
    }
}

/// Parses, desugars and type checks a program; gives the lines reporting the type of
/// each assigned variable, or the first error. A program the desugarer or the type
/// checker cannot take (see `stmts_fit` and `stmts_checkable`) is an error.
pub fn typecheck_report(lines: Vec<&str>) -> (r: Result<Vec<String>, Error>)
    ensures
        !lines_fit(lines_view(lines@)) ==> (r matches Err(e) && e matches Error::SimpleError { message } && message@ == "Line too long"@),
        lines_fit(lines_view(lines@)) ==> match parse_spec(lines_view(lines@)) {
            Err(v) => r matches Err(e) && error_matches(e, v),
            Ok(program) => match typecheck_outcome(program) {
                None => r matches Err(e) && e is SimpleError,
                Some(Ok(report)) => r matches Ok(x) && x@.map_values(|s: String| s@) == report,
                Some(Err(v)) => r matches Err(e) && type_error_matches(e, v),
            },
        },
{
    if !check_line_lengths(&lines) {
        return Err(too_long_error());
    }
    proof {
        assert forall|i: int| 0 <= i < lines@.len() implies (#[trigger] lines@[i])@.len() <= usize::MAX / 64 by {
            assert(lines_view(lines@)[i] == lines@[i]@);
        }
    }
    let base_expressions = match parse_strings(lines) {
        Ok(b) => b,
        Err(e) => return Err(e),
    };
    if !stmts_fit_exec(&base_expressions) {
        return Err(Error::SimpleError { message: String::from_str("Program cannot be desugared") });
    }
    let desugared = desugar(base_expressions);
    if !stmts_are_checkable(&desugared) {
        return Err(Error::SimpleError { message: String::from_str("Program cannot be type checked") });
    }
    match type_check_program(desugared) {
        Ok((typed, _)) => Ok(variable_type_report(&typed)),
        Err(e) => Err(e),
    }
}

/// Whether a program parses, desugars and type checks.
pub open spec fn typecheck_passes(lines: Seq<Seq<char>>) -> bool {
    &&& lines_fit(lines)
    &&& parse_spec(lines) matches Ok(program)
    &&& typecheck_outcome(program) matches Some(Ok(_))
}

/// Parses, desugars and type checks a program; gives "Typecheck passed" where it type
/// checks, and an empty message where any stage fails (`typecheck_report` says why).
pub fn run_typecheck_pipeline(lines: Vec<&str>) -> (r: Result<String, String>)
    ensures
        typecheck_passes(lines_view(lines@)) ==> (r matches Ok(s) && s@ == "Typecheck passed"@),
        !typecheck_passes(lines_view(lines@)) ==> (r matches Err(s) && s@.len() == 0),
{
    match typecheck_report(lines) {
        Ok(_) => Ok(String::from_str("Typecheck passed")),
        Err(_) => Err(String::new()),
    }
}

/// The typed program and function instances of a parsed program, where the desugarer
/// and the type checker take it.
pub open spec fn typed_outcome(program: Seq<crate::parser::BaseExprView<()>>) -> Option<Result<(Seq<crate::parser::BaseExprView<crate::typechecker::Type>>, Seq<crate::typechecker::FunctionTypeView>), crate::typechecker::TypeErrorView>> {
    if !stmts_fit(program) || !stmts_checkable(desugar_stmts(program)) {
        None
    } else {
        Some(check_program(desugar_stmts(program)))
    }
}

/// Parses, desugars, type checks, renames and compiles a program to machine code: gives
/// the code, the calls of imported functions still to be linked (name and position of
/// their address) and the offset the program starts at, or the first error. A parse or
/// type error is the one that stage reports; where renaming, three-address code, the
/// back end or the encoding fails, the error is a simple one. Where the program
/// compiles, each stage gave its result to the next, and the lowered code went to the
/// assembler without moves of an operand to itself and without repeated `nop`s.
pub fn compile_program(lines: Vec<&str>) -> (r: Result<(Vec<u8>, Vec<(String, usize)>, usize), Error>)
    ensures
        !lines_fit(lines_view(lines@)) ==> (r matches Err(e) && e matches Error::SimpleError { message } && message@ == "Line too long"@),
        lines_fit(lines_view(lines@)) ==> match parse_spec(lines_view(lines@)) {
            Err(v) => r matches Err(e) && error_matches(e, v),
            Ok(program) => match typed_outcome(program) {
                None => r matches Err(e) && e is SimpleError,
                Some(Err(v)) => r matches Err(e) && type_error_matches(e, v),
                Some(Ok((ts, fs))) => match uniq_program(ts, fs) {
                    None => r matches Err(e) && e is SimpleError,
                    Some((us, ufs)) => match tac_program(us, ufs) {
                        Err(m) => r matches Err(e) && e matches Error::SimpleError { message } && message@ == m,
                        Ok(code) => match r {
                            Ok(x) => exists|live: Seq<Vec<String>>, graph: Seq<(String, Vec<String>)>, alloc: Seq<(String, isize)>, lowered: Seq<crate::instructionsimplifier::AsmView>|
                                computed(code, live, graph) && back_end_gives(code, live, graph, alloc, lowered)
                                && assembled(optimise_from(lowered, false)) == Some((x.0@, pairs_view(x.1@), x.2 as nat)),
                            Err(e) => e is SimpleError && (
                                (exists|live: Seq<Vec<String>>, graph: Seq<(String, Vec<String>)>, alloc: Seq<(String, isize)>|
                                    computed(code, live, graph) && back_end_fails(code, live, graph, alloc))
                                || (exists|live: Seq<Vec<String>>, graph: Seq<(String, Vec<String>)>, alloc: Seq<(String, isize)>, lowered: Seq<crate::instructionsimplifier::AsmView>|
                                    computed(code, live, graph) && back_end_gives(code, live, graph, alloc, lowered)
                                    && assembled(optimise_from(lowered, false)) is None)),
                        },
                    },
                },
            },
        },
{
    if !check_line_lengths(&lines) {
        return Err(too_long_error());
    }
    proof {
        assert forall|i: int| 0 <= i < lines@.len() implies (#[trigger] lines@[i])@.len() <= usize::MAX / 64 by {
            assert(lines_view(lines@)[i] == lines@[i]@);
        }
    }
    let base_expressions = match parse_strings(lines) {
        Ok(b) => b,
        Err(e) => return Err(e),
    };
    if !stmts_fit_exec(&base_expressions) {
        return Err(Error::SimpleError { message: String::from_str("Program cannot be desugared") });
    }
    let desugared = desugar(base_expressions);
    if !stmts_are_checkable(&desugared) {
        return Err(Error::SimpleError { message: String::from_str("Program cannot be type checked") });
    }
    let typed = match type_check_program(desugared) {
        Ok(t) => t,
        Err(e) => return Err(e),
    };
    let renamed = match try_uniquify(typed) {
        Ok(p) => p,
        Err(e) => return Err(e),
    };
    let lowered = match compile(renamed) {
        Ok(a) => a,
        Err(e) => return Err(e),
    };
    let optimised = optimise_assembly(&lowered);
    let ghost lv = crate::instructionsimplifier::asms_view(lowered@);
    assert(crate::instructionsimplifier::asms_view(optimised@) == optimise_from(lv, false));
    try_assemble_program(optimised)
}

} // verus!
