use vstd::prelude::*;

pub mod text;
pub mod vecs;
pub mod namesets;
pub mod tokenizer;
pub mod typechecker;
pub mod parser;
pub mod desugarer;
pub mod interpreter;
pub mod pipeline;
pub mod tac;
pub mod variablecollector;
pub mod uniquify;
pub mod livenessanalysis;
pub mod codegenerator;
pub mod instructionsimplifier;
pub mod exewriter;
pub mod assembler;
pub mod defaultfunctions;
pub mod libraryfunctions;
pub mod compiler;
pub mod optimiser;
pub mod listing;
pub mod registerallocation;

verus! {
} // verus!
