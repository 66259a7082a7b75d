//! Arithmetic expressions over `+ - * /`: a scanner that turns text into
//! tokens, a builder that turns tokens into a right-nested expression tree,
//! and an evaluator that folds such a tree over the caller's arithmetic.

pub mod ast;
pub mod fold;
pub mod parser;
pub mod text;
pub mod token;
pub mod tokenizer;
