use vstd::prelude::*;

pub mod text;
pub mod benchmark;
pub mod context_index;
pub mod grader;
pub mod compare;
pub mod report;
pub mod report_page;
pub mod runner;
pub mod tokenizer;
pub mod hashing;
pub mod probe;
pub mod score;
pub mod paths;
pub mod validator;
pub mod generator;

verus! {

} // verus!
