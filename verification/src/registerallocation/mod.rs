//! Register allocation: which variables are parameters, which interfere, and the
//! register each one gets.
pub mod variableclassifier;
pub mod interferencegraph;
pub mod registerallocator;
