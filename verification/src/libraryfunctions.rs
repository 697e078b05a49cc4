//! The library functions of the language, whose code would be added to a program.
use vstd::prelude::*;
use crate::tac::TacInstruction;
use crate::tac::TacFunction;
use crate::typechecker::FunctionType;

verus! {

/// Adds the code of the language's library functions: there are none, so nothing
/// changes.
pub fn add_library_functions(functions: &Vec<FunctionType>, function_env: &mut Vec<TacFunction>, instructions: &mut Vec<TacInstruction>, label_counter: &mut usize)
    ensures
        final(function_env)@ == old(function_env)@,
        final(instructions)@ == old(instructions)@,
        *final(label_counter) == *old(label_counter),
{
}

} // verus!
